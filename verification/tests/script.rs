use sighash_scan::script::{classify, derive_address, ScriptKind};

fn p2pkh_script(hash: [u8; 20]) -> Vec<u8> {
    let mut s = vec![0x76, 0xa9, 0x14];
    s.extend_from_slice(&hash);
    s.push(0x88);
    s.push(0xac);
    s
}

fn p2pk_script(key_len: u8) -> Vec<u8> {
    let mut s = vec![key_len];
    s.extend_from_slice(&vec![0x02; key_len as usize]);
    s.push(0xac);
    s
}

#[test]
fn classify_p2pkh() {
    assert_eq!(classify(&p2pkh_script([5; 20])), ScriptKind::PayToPubKeyHash);
}

#[test]
fn classify_p2pk_both_key_sizes() {
    assert_eq!(classify(&p2pk_script(33)), ScriptKind::PayToPubKey);
    assert_eq!(classify(&p2pk_script(65)), ScriptKind::PayToPubKey);
}

#[test]
fn classify_is_total_on_odd_shapes() {
    // empty script
    assert_eq!(classify(&vec![]), ScriptKind::Other);
    // single opcode
    assert_eq!(classify(&vec![0xac]), ScriptKind::Other);
    // right length for p2pkh, wrong opcodes
    assert_eq!(classify(&vec![0u8; 25]), ScriptKind::Other);
    // almost p2pk: wrong trailing opcode
    let mut s = p2pk_script(33);
    let last = s.len() - 1;
    s[last] = 0xab;
    assert_eq!(classify(&s), ScriptKind::Other);
    // p2sh-looking script
    let mut p2sh = vec![0xa9, 0x14];
    p2sh.extend_from_slice(&[7; 20]);
    p2sh.push(0x87);
    assert_eq!(classify(&p2sh), ScriptKind::Other);
}

#[test]
fn derive_address_p2pkh_extracts_hash() {
    let hash = [0xdeu8; 20];
    let addr = derive_address(&p2pkh_script(hash)).expect("p2pkh derives an address");
    assert_eq!(addr.hash, hash.to_vec());
}

#[test]
fn derive_address_none_for_other_shapes() {
    assert!(derive_address(&p2pk_script(33)).is_none());
    assert!(derive_address(&vec![]).is_none());
    assert!(derive_address(&vec![0u8; 25]).is_none());
}
