use manifest_orders::octets::{compute_octets_with_overflow, get_octets, Op};

#[test]
fn test_get_octets() {
    assert_eq!(get_octets("10.128.52.14"), Some(vec![10, 128, 52, 14]));
    assert_eq!(get_octets("10.128.52"), None);
}

#[test]
fn test_op_octets_with_overflow() {
    let fst = "1.2.3.4".to_string();
    let snd = "255.128.252.101".to_string();
    assert_eq!(
        compute_octets_with_overflow(&fst, &snd, Op::Add),
        Ok("0.130.255.105".to_string())
    );
    assert_eq!(
        compute_octets_with_overflow(&snd, &fst, Op::Sub),
        Ok("2.130.7.159".to_string())
    );
}

#[test]
fn get_octets_skips_unparseable_segments() {
    assert_eq!(get_octets("1..2.3.4"), Some(vec![1, 2, 3, 4]));
    assert_eq!(get_octets("1.2.3.4.5"), None);
    assert_eq!(get_octets(""), None);
    assert_eq!(get_octets("256.1.2.3"), None);
}

#[test]
fn compute_reports_bad_octets() {
    let r = compute_octets_with_overflow("1.2.3", "4.5.6.7", Op::Add);
    assert!(r.is_err());
    let e = r.unwrap_err();
    assert_eq!(e.0, "cannot decode request: octets are 1.2.3 and 4.5.6.7");
}
