use eclipse_redirect::hooks::{launch_options, set_backend_url};
use eclipse_redirect::opts;
use eclipse_redirect::unreal::{encode_utf16_z, FString};

fn s(v: &Option<Vec<char>>) -> Option<String> {
    v.as_ref().map(|c| c.iter().collect())
}

#[test]
fn backend_and_console_arguments() {
    let o = launch_options("FortniteClient.exe -epicapp=Fortnite -backend=http://10.0.0.2:3551 -bConsole=TRUE");
    assert_eq!(s(&o.backend).as_deref(), Some("http://10.0.0.2:3551"));
    assert_eq!(o.console_count, 1);
}

#[test]
fn last_backend_wins_and_any_console_true_counts() {
    let o = launch_options("-backend=a -bConsole=true\t-backend=b -bConsole=false");
    assert_eq!(s(&o.backend).as_deref(), Some("b"));
    assert_eq!(o.console_count, 1);
}

#[test]
fn options_are_matched_exactly() {
    let o = launch_options("-backend -bconsole=true -bConsole=yes x-backend=c -bConsole=truee");
    assert!(o.backend.is_none());
    assert_eq!(o.console_count, 0);
    let o = launch_options("");
    assert!(o.backend.is_none());
    assert_eq!(o.console_count, 0);
}

#[test]
fn empty_backend_value_and_unicode_spaces() {
    let o = launch_options("-backend=\u{3000}-bConsole=tRuE\u{2003}");
    assert_eq!(s(&o.backend).as_deref(), Some(""));
    assert_eq!(o.console_count, 1);
}

#[test]
fn every_console_argument_is_counted() {
    let o = launch_options("-bConsole=true x -bConsole=True -bConsole=no -bCONSOLE=true -bConsole=TRUE");
    assert_eq!(o.console_count, 3);
}

#[test]
fn utf16_encoding_with_terminator() {
    assert_eq!(encode_utf16_z("aé😀"), vec![0x61, 0xE9, 0xD83D, 0xDE00, 0]);
    assert_eq!(encode_utf16_z(""), vec![0]);
    let f = FString::to_wide("http://x");
    assert_eq!(f.length, 9);
    assert_eq!(f.max_size, 9);
    assert_eq!(f.string.unwrap().len(), 9);
}

#[test]
fn backend_url_must_not_be_empty() {
    assert!(set_backend_url("").is_none());
    let f = set_backend_url(opts::BACKEND).unwrap();
    let expect: Vec<u16> = "http://127.0.0.1:3551\0".encode_utf16().collect();
    assert_eq!(f.string.unwrap(), expect);
    assert_eq!(f.length as usize, expect.len());
}
