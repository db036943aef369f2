use aspm::cli::{parse_args, ArgErrorKind};

fn strings(items: &[&str]) -> Vec<String> {
    items.iter().map(|s| s.to_string()).collect()
}

#[test]
fn path_alone_controls_nothing() {
    let a = parse_args(&strings(&["config"])).unwrap();
    assert_eq!((a.mask, a.flags, a.path.as_str()), (0, 0, "config"));
}

#[test]
fn options_set_mask_and_flags() {
    let a = parse_args(&strings(&["--disable-l0s", "config", "--enable-l1"])).unwrap();
    assert_eq!((a.mask, a.flags, a.path.as_str()), (0x0003, 0x0002, "config"));
}

#[test]
fn later_option_wins() {
    let a = parse_args(&strings(&["--enable-l0s", "--disable-l0s", "p"])).unwrap();
    assert_eq!((a.mask, a.flags), (0x0001, 0x0000));
    let b = parse_args(&strings(&["--disable-l1", "--enable-l1", "p"])).unwrap();
    assert_eq!((b.mask, b.flags), (0x0002, 0x0002));
}

#[test]
fn unknown_option_is_refused() {
    let e = parse_args(&strings(&["p", "--enable-l2"])).unwrap_err();
    assert_eq!(e.kind, ArgErrorKind::UnrecognizedOption);
    assert_eq!(e.arg, "--enable-l2");
}

#[test]
fn second_path_is_refused() {
    let e = parse_args(&strings(&["a", "b"])).unwrap_err();
    assert_eq!(e.kind, ArgErrorKind::PathAlreadySpecified);
    assert_eq!(e.arg, "b");
}

#[test]
fn missing_path_is_refused() {
    let e = parse_args(&strings(&["--enable-l0s"])).unwrap_err();
    assert_eq!(e.kind, ArgErrorKind::MissingPath);
    let empty = parse_args(&Vec::new()).unwrap_err();
    assert_eq!(empty.kind, ArgErrorKind::MissingPath);
}

#[test]
fn single_dash_is_a_path() {
    let a = parse_args(&strings(&["-"])).unwrap();
    assert_eq!(a.path, "-");
}
