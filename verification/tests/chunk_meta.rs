use replicache_client::dag::meta::{
    encode_meta, get_root_as_meta, get_size_prefixed_root_as_meta, meta_fits, meta_root_loc,
    read_meta_refs, read_size_prefixed_meta_refs, size_prefixed_meta_root_loc, MetaError,
};

fn strings(xs: &[&str]) -> Vec<String> {
    xs.iter().map(|x| x.to_string()).collect()
}

#[test]
fn root_locations() {
    assert_eq!(meta_root_loc(&[1, 2, 0, 0, 9]), Some(0x0201));
    assert_eq!(meta_root_loc(&[1, 2, 3]), None);
    assert_eq!(size_prefixed_meta_root_loc(&[9, 9, 9, 9, 8, 0, 0, 0]), Some(12));
    assert_eq!(size_prefixed_meta_root_loc(&[9, 9, 9, 9, 8, 0, 0]), None);
    assert!(get_root_as_meta(&[0, 0]).is_none());
    assert!(get_size_prefixed_root_as_meta(&[0, 0, 0, 0]).is_none());
}

#[test]
fn encoded_refs_read_back() {
    for refs in [strings(&[]), strings(&["a"]), strings(&["hash1", "", "héllo", "hash2"])] {
        assert!(meta_fits(&refs));
        let buf = encode_meta(&refs);
        assert_eq!(read_meta_refs(&buf), Ok(Some(refs.clone())));
        let root = get_root_as_meta(&buf).unwrap();
        assert_eq!(root.refs(), Ok(Some(refs.clone())));
    }
}

#[test]
fn size_prefixed_buffer_reads_back() {
    let refs = strings(&["x", "yz"]);
    let buf = encode_meta(&refs);
    let mut prefixed = (buf.len() as u32).to_le_bytes().to_vec();
    prefixed.extend_from_slice(&buf);
    assert_eq!(read_size_prefixed_meta_refs(&prefixed), Ok(Some(refs)));
}

#[test]
fn malformed_buffers_are_refused() {
    assert_eq!(read_meta_refs(&[]), Err(MetaError::Malformed));
    assert_eq!(read_meta_refs(&[200, 0, 0, 0]), Err(MetaError::Malformed));
    let buf = encode_meta(&strings(&["abcdef"]));
    let full = Ok(Some(strings(&["abcdef"])));
    let mut refused = 0;
    for cut in 0..buf.len() {
        let r = read_meta_refs(&buf[..cut]);
        assert!(r == full || r == Err(MetaError::Malformed));
        if r.is_err() {
            refused += 1;
        }
    }
    assert!(refused >= 12);
    assert_eq!(read_meta_refs(&buf[..4]), Err(MetaError::Malformed));
}

#[test]
fn a_table_without_refs() {
    // root offset 4; table at 4 whose vtable is at 10 (soffset -6);
    // the vtable is 4 bytes long, so it has no fields.
    let buf = [4, 0, 0, 0, 0xfa, 0xff, 0xff, 0xff, 0, 0, 4, 0, 4, 0];
    assert_eq!(read_meta_refs(&buf), Ok(None));
}

#[test]
fn a_string_that_is_not_utf8_is_refused() {
    let mut buf = encode_meta(&strings(&["ab"]));
    let pos = buf.windows(2).position(|w| w == b"ab").unwrap();
    buf[pos] = 0xff;
    assert_eq!(read_meta_refs(&buf), Err(MetaError::Malformed));
}
