use bft_chain::store::{height_key, prefix_key, BaseIndexIter, IndexType};

#[test]
fn t_iter_from() {
    let name = b"transaction".to_vec();
    let prefix = "block_".to_string();
    let mut entries: Vec<(Vec<u8>, Vec<u8>)> = (0..100)
        .map(|idx| {
            let (key, value) = (format!("{}{}", prefix, idx), format!("{:?}", idx + 2));
            (prefix_key(&name, &None, key.as_bytes()), value.into_bytes())
        })
        .collect();
    entries.sort();
    // an entry of another index follows in key order
    entries.push((b"transactionz".to_vec(), b"0".to_vec()));

    let base = prefix_key(&name, &None, b"");
    let from = prefix_key(&name, &None, b"block");
    let mut iter = BaseIndexIter::new(base.len(), from);
    let mut source = entries.into_iter();
    let mut count = 0;
    while let Some((key, value)) = iter.next_entry(source.next()) {
        assert!(key.starts_with(b"block_"));
        assert!(!value.is_empty());
        count += 1;
    }
    assert_eq!(count, 100);
    assert!(iter.ended);
    assert!(iter.next_entry(Some((b"transactionblock_1".to_vec(), vec![]))).is_none());
}

#[test]
fn prefixed_keys() {
    assert_eq!(prefix_key(b"blocks", &None, b"/k"), b"blocks/k".to_vec());
    assert_eq!(prefix_key(b"blocks", &Some(b"_1".to_vec()), b"/k"), b"blocks_1/k".to_vec());
    assert_eq!(height_key(b"heights/", 258), b"heights/\x00\x00\x00\x00\x00\x00\x01\x02".to_vec());
    assert!(height_key(b"heights/", 255) < height_key(b"heights/", 256));
}

#[test]
fn index_types_by_number() {
    assert_eq!(IndexType::from(0), IndexType::Entry);
    assert_eq!(IndexType::from(4), IndexType::PlainMap);
    assert_eq!(IndexType::from(7), IndexType::ValueSet);
    assert_eq!(IndexType::try_from_u8(6), Some(IndexType::ProofMap));
    assert_eq!(IndexType::try_from_u8(8), None);
}

#[test]
fn t() {
    let name = b"transaction".to_vec();
    let prefix = "block_".to_string();
    let mut entries: Vec<(Vec<u8>, Vec<u8>)> = (0..100)
        .map(|idx| {
            let (key, value) = (format!("{}{}", prefix, idx), format!("{}", idx + 2));
            (prefix_key(&name, &None, key.as_bytes()), value.into_bytes())
        })
        .collect();
    entries.sort();
    let iter_prefix = prefix_key(&name, &None, prefix.as_bytes());
    let mut iter = BaseIndexIter::new(name.len(), iter_prefix);
    let mut source = entries.into_iter();
    let mut seen = Vec::new();
    while let Some((key, value)) = iter.next_entry(source.next()) {
        let key = String::from_utf8(key).unwrap();
        let value = String::from_utf8(value).unwrap();
        let idx: u32 = key["block_".len()..].parse().unwrap();
        assert_eq!(value, format!("{}", idx + 2));
        seen.push(idx);
    }
    seen.sort();
    assert_eq!(seen, (0..100).collect::<Vec<u32>>());
}
