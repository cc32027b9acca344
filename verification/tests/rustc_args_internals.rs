use abrasive::rustc_args::{
    ArgData, ArgDisposition, ArgInfo, ArgKind, ArgParseError, ArgsIter, Argument, FileProbe,
    NormalizedDisposition,
};
use std::cmp::Ordering;
use std::cmp::Ordering::{Equal, Greater, Less};

fn flag(s: &str, d: ArgData) -> ArgInfo {
    ArgInfo::Flag(s.to_string(), d)
}

fn take_arg(s: &str, k: ArgKind, d: ArgDisposition) -> ArgInfo {
    ArgInfo::TakeArg(s.to_string(), k, d)
}

fn with_value(s: &str, d: ArgData, disp: ArgDisposition) -> Argument {
    Argument::WithValue(s.to_string(), d, disp)
}

fn nc(s: &str) -> ArgData {
    ArgData::NotCompilation(s.to_string())
}

fn process(info: &ArgInfo, arg: &str, next: Option<&str>) -> Result<Argument, ArgParseError> {
    info.process(arg, next, &FileProbe::new()).0
}

fn check_cmp(info: &ArgInfo, expected: [Ordering; 7]) {
    let args = ["-foo", "bar", "-bar", "-qux", "-foobar", "-foo=", "-foo=bar"];
    for (a, e) in args.iter().zip(expected.iter()) {
        assert_eq!(info.cmp(a), *e, "{}", a);
    }
}

#[test]
fn test_arginfo_cmp() {
    check_cmp(&flag("-foo", ArgData::TooHardFlag), [Equal, Less, Greater, Less, Less, Less, Less]);
    check_cmp(
        &take_arg("-foo", ArgKind::NotCompilation, ArgDisposition::Separated),
        [Equal, Less, Greater, Less, Less, Less, Less],
    );
    check_cmp(
        &take_arg("-foo", ArgKind::NotCompilation, ArgDisposition::Concatenated(None)),
        [Equal, Less, Greater, Less, Equal, Equal, Equal],
    );
    check_cmp(
        &take_arg("-foo", ArgKind::NotCompilation, ArgDisposition::Concatenated(Some(b'='))),
        [Equal, Less, Greater, Less, Greater, Equal, Equal],
    );
    check_cmp(
        &take_arg("-foo", ArgKind::NotCompilation, ArgDisposition::CanBeConcatenated(Some(b'='))),
        [Equal, Less, Greater, Less, Greater, Equal, Equal],
    );
    check_cmp(
        &take_arg("-foo", ArgKind::NotCompilation, ArgDisposition::CanBeSeparated(None)),
        [Equal, Less, Greater, Less, Equal, Equal, Equal],
    );
    check_cmp(
        &take_arg("-foo", ArgKind::NotCompilation, ArgDisposition::CanBeSeparated(Some(b'='))),
        [Equal, Less, Greater, Less, Greater, Equal, Equal],
    );
}

#[test]
fn test_arginfo_process() {
    let info = flag("-foo", ArgData::TooHardFlag);
    assert_eq!(process(&info, "-foo", None).unwrap(), Argument::Flag("-foo".to_string(), ArgData::TooHardFlag));

    let info = take_arg("-foo", ArgKind::NotCompilation, ArgDisposition::Separated);
    assert_eq!(process(&info, "-foo", None).unwrap_err(), ArgParseError::UnexpectedEndOfArgs);
    assert_eq!(process(&info, "-foo", Some("bar")).unwrap(), with_value("-foo", nc("bar"), ArgDisposition::Separated));

    let info = take_arg("-foo", ArgKind::NotCompilation, ArgDisposition::Concatenated(None));
    assert_eq!(process(&info, "-foo", None).unwrap(), with_value("-foo", nc(""), ArgDisposition::Concatenated(None)));
    assert_eq!(
        process(&info, "-foobar", None).unwrap(),
        with_value("-foo", nc("bar"), ArgDisposition::Concatenated(None))
    );

    let info = take_arg("-foo", ArgKind::NotCompilation, ArgDisposition::Concatenated(Some(b'=')));
    assert_eq!(
        process(&info, "-foo=", None).unwrap(),
        with_value("-foo", nc(""), ArgDisposition::Concatenated(Some(b'=')))
    );
    assert_eq!(
        process(&info, "-foo=bar", None).unwrap(),
        with_value("-foo", nc("bar"), ArgDisposition::Concatenated(Some(b'=')))
    );

    let info = take_arg("-foo", ArgKind::NotCompilation, ArgDisposition::CanBeSeparated(None));
    assert_eq!(process(&info, "-foo", None).unwrap(), with_value("-foo", nc(""), ArgDisposition::Concatenated(None)));
    assert_eq!(
        process(&info, "-foobar", None).unwrap(),
        with_value("-foo", nc("bar"), ArgDisposition::CanBeSeparated(None))
    );
    assert_eq!(
        process(&info, "-foo", Some("bar")).unwrap(),
        with_value("-foo", nc("bar"), ArgDisposition::CanBeConcatenated(None))
    );

    let info = take_arg("-foo", ArgKind::NotCompilation, ArgDisposition::CanBeSeparated(Some(b'=')));
    assert_eq!(process(&info, "-foo", None).unwrap_err(), ArgParseError::UnexpectedEndOfArgs);
    assert_eq!(
        process(&info, "-foo=", None).unwrap(),
        with_value("-foo", nc(""), ArgDisposition::CanBeSeparated(Some(b'=')))
    );
    assert_eq!(
        process(&info, "-foo=bar", None).unwrap(),
        with_value("-foo", nc("bar"), ArgDisposition::CanBeSeparated(Some(b'=')))
    );
    assert_eq!(
        process(&info, "-foo", Some("bar")).unwrap(),
        with_value("-foo", nc("bar"), ArgDisposition::CanBeConcatenated(Some(b'=')))
    );
}

#[test]
fn test_argsiter() {
    let table = vec![
        flag("-bar", ArgData::TooHardFlag),
        take_arg("-foo", ArgKind::NotCompilation, ArgDisposition::Separated),
        flag("-fuga", ArgData::NotCompilationFlag),
        take_arg("-hoge", ArgKind::TooHardPath, ArgDisposition::Concatenated(None)),
        flag("-plop", ArgData::TooHardFlag),
        take_arg("-qux", ArgKind::PassThrough, ArgDisposition::CanBeSeparated(Some(b'='))),
        flag("-zorglub", ArgData::NotCompilationFlag),
    ];
    let args: Vec<String> = [
        "-nomatch",
        "-foo",
        "value",
        "-hoge",
        "value",
        "-hoge=value",
        "-hogevalue",
        "-zorglub",
        "-qux",
        "value",
        "-plop",
        "-quxbar",
        "-qux=value",
    ]
    .iter()
    .map(|s| s.to_string())
    .collect();
    let mut it = ArgsIter::new(args, table);
    let mut actual = Vec::new();
    while let Some(r) = it.next_arg() {
        actual.push(r.unwrap());
    }
    let expected = vec![
        Argument::UnknownFlag("-nomatch".to_string()),
        with_value("-foo", nc("value"), ArgDisposition::Separated),
        with_value("-hoge", ArgData::TooHardPath("".to_string()), ArgDisposition::Concatenated(None)),
        Argument::Raw("value".to_string()),
        with_value("-hoge", ArgData::TooHardPath("=value".to_string()), ArgDisposition::Concatenated(None)),
        with_value("-hoge", ArgData::TooHardPath("value".to_string()), ArgDisposition::Concatenated(None)),
        Argument::Flag("-zorglub".to_string(), ArgData::NotCompilationFlag),
        with_value("-qux", ArgData::PassThrough("value".to_string()), ArgDisposition::CanBeConcatenated(Some(b'='))),
        Argument::Flag("-plop".to_string(), ArgData::TooHardFlag),
        Argument::UnknownFlag("-quxbar".to_string()),
        with_value("-qux", ArgData::PassThrough("value".to_string()), ArgDisposition::CanBeSeparated(Some(b'='))),
    ];
    assert_eq!(actual, expected);
}

fn strings(v: &[&str]) -> Vec<String> {
    v.iter().map(|s| s.to_string()).collect()
}

#[test]
fn test_argument_into_iter() {
    assert_eq!(Argument::Raw("value".to_string()).iter_os_strings(), strings(&["value"]));
    assert_eq!(Argument::UnknownFlag("-foo".to_string()).iter_os_strings(), strings(&["-foo"]));
    assert_eq!(Argument::Flag("-foo".to_string(), ArgData::TooHardFlag).iter_os_strings(), strings(&["-foo"]));
    assert_eq!(
        with_value("-foo", nc("bar"), ArgDisposition::Concatenated(None)).iter_os_strings(),
        strings(&["-foobar"])
    );
    assert_eq!(
        with_value("-foo", nc("bar"), ArgDisposition::Concatenated(Some(b'='))).iter_os_strings(),
        strings(&["-foo=bar"])
    );
    assert_eq!(
        with_value("-foo", nc("bar"), ArgDisposition::CanBeSeparated(None)).iter_os_strings(),
        strings(&["-foobar"])
    );
    assert_eq!(
        with_value("-foo", nc("bar"), ArgDisposition::CanBeSeparated(Some(b'='))).iter_os_strings(),
        strings(&["-foo=bar"])
    );
    assert_eq!(
        with_value("-foo", nc("bar"), ArgDisposition::CanBeConcatenated(None)).iter_os_strings(),
        strings(&["-foo", "bar"])
    );
    assert_eq!(
        with_value("-foo", nc("bar"), ArgDisposition::CanBeConcatenated(Some(b'='))).iter_os_strings(),
        strings(&["-foo", "bar"])
    );
    assert_eq!(
        with_value("-foo", nc("bar"), ArgDisposition::Separated).iter_os_strings(),
        strings(&["-foo", "bar"])
    );
}

#[test]
fn test_arginfo_process_take_concat_arg_delim_doesnt_crash() {
    let info = take_arg("-foo", ArgKind::NotCompilation, ArgDisposition::Concatenated(Some(b'=')));
    let _ = process(&info, "-foo", None);
}

#[test]
fn test_args_iter_no_conflict() {
    let table = vec![flag("-foo", ArgData::TooHardFlag), flag("-fooz", ArgData::TooHardFlag)];
    let _ = ArgsIter::new(Vec::new(), table);
}

#[test]
fn argument_accessors() {
    let a = with_value("--cfg", ArgData::PassThrough("x".to_string()), ArgDisposition::CanBeSeparated(Some(b'=')));
    assert_eq!(a.to_os_string(), "--cfg");
    assert_eq!(a.flag_str().map(|s| s.as_str()), Some("--cfg"));
    assert_eq!(a.get_data(), Some(&ArgData::PassThrough("x".to_string())));
    assert_eq!(
        a.clone().normalize(NormalizedDisposition::Separated),
        with_value("--cfg", ArgData::PassThrough("x".to_string()), ArgDisposition::Separated)
    );
    assert_eq!(
        a.normalize(NormalizedDisposition::Concatenated),
        with_value("--cfg", ArgData::PassThrough("x".to_string()), ArgDisposition::Concatenated(Some(b'=')))
    );
    let raw = Argument::Raw("foo.rs".to_string());
    assert_eq!(raw.to_os_string(), "foo.rs");
    assert_eq!(raw.flag_str(), None);
    assert_eq!(raw.get_data(), None);
}

#[test]
fn values_split_at_the_first_separator() {
    use_split();
}

fn use_split() {
    assert_eq!(
        abrasive::rustc_args::split_os_string_arg("static=foo=bar", '='),
        ("static".to_string(), Some("foo=bar".to_string()))
    );
    assert_eq!(abrasive::rustc_args::split_os_string_arg("foo", '='), ("foo".to_string(), None));
}
