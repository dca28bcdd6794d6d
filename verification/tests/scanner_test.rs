use prodlog::{ProtocolScanner, ScanItem};

const PREFIX: &[u8] = b"\x1A(dd0d3038-1d43-11f0-9761-022486cd4c38) PRODLOG:";

fn pass_bytes(items: &[ScanItem]) -> Vec<u8> {
    let mut out = Vec::new();
    for item in items {
        if let ScanItem::Pass(v) = item {
            out.extend_from_slice(v);
        }
    }
    out
}

fn cmd_bodies(items: &[ScanItem]) -> Vec<Vec<u8>> {
    let mut out = Vec::new();
    for item in items {
        if let ScanItem::Cmd(v) = item {
            out.push(v.clone());
        }
    }
    out
}

#[test]
fn test_prefix_split_across_chunks() {
    let mut scanner = ProtocolScanner::new();
    let mut items = scanner.process(b"hi\x1A(dd0d3038-1d43-");
    items.extend(scanner.process(b"11f0-9761-022486cd4c38) PRODLOG:IS CURRENTLY INACTIVE;bye"));
    assert_eq!(pass_bytes(&items), b"hibye".to_vec());
    let cmds = cmd_bodies(&items);
    assert_eq!(cmds.len(), 1);
    assert_eq!(cmds[0], b"IS CURRENTLY INACTIVE".to_vec());
}

#[test]
fn test_false_start_double_sub() {
    let mut chunk = Vec::new();
    chunk.push(0x1Au8);
    chunk.extend_from_slice(PREFIX);
    chunk.extend_from_slice(b"IS CURRENTLY INACTIVE;");
    let mut scanner = ProtocolScanner::new();
    let items = scanner.process(&chunk);
    assert_eq!(pass_bytes(&items), vec![0x1Au8]);
    let cmds = cmd_bodies(&items);
    assert_eq!(cmds.len(), 1);
    assert_eq!(cmds[0], b"IS CURRENTLY INACTIVE".to_vec());
}

#[test]
fn test_mismatch_replays_matched_bytes() {
    // A candidate marker that fails part way: the matched bytes reappear.
    let mut scanner = ProtocolScanner::new();
    let items = scanner.process(b"\x1A(ddX rest");
    assert_eq!(pass_bytes(&items), b"\x1A(ddX rest".to_vec());
    assert_eq!(cmd_bodies(&items).len(), 0);
}

#[test]
fn test_byte_at_a_time_matches_whole() {
    let mut whole = Vec::new();
    whole.extend_from_slice(b"abc");
    whole.extend_from_slice(PREFIX);
    whole.extend_from_slice(b"TASK LIST;tail\x1A");
    let mut one = ProtocolScanner::new();
    let items_whole = one.process(&whole);
    let mut two = ProtocolScanner::new();
    let mut items_split = Vec::new();
    for b in &whole {
        items_split.extend(two.process(&[*b]));
    }
    assert_eq!(pass_bytes(&items_whole), pass_bytes(&items_split));
    assert_eq!(cmd_bodies(&items_whole), cmd_bodies(&items_split));
    // The trailing SUB byte is held back in both cases.
    assert_eq!(pass_bytes(&items_whole), b"abctail".to_vec());
}
