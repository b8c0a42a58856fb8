use iphone_bridge::voice::appctx::{
    exe_file_name, foreground, foreground_exe, foreground_title, utf16_to_string,
};

fn wide(s: &str) -> Vec<u16> {
    s.encode_utf16().collect()
}

#[test]
fn extracts_exe_from_backslash_path() {
    assert_eq!(
        exe_file_name(r"C:\Program Files\Microsoft VS Code\Code.exe"),
        "code.exe"
    );
}

#[test]
fn extracts_exe_from_forward_slash_path() {
    assert_eq!(exe_file_name("C:/Windows/System32/Notepad.EXE"), "notepad.exe");
}

#[test]
fn bare_filename_passes_through_lowercased() {
    assert_eq!(exe_file_name("WindowsTerminal.exe"), "windowsterminal.exe");
}

#[test]
fn extracts_exe_from_unc_path() {
    assert_eq!(
        exe_file_name(r"\\server\share\tools\Ripgrep.exe"),
        "ripgrep.exe"
    );
    // The extended-length prefix Win32 sometimes hands back.
    assert_eq!(exe_file_name(r"\\?\C:\bin\Foo.Exe"), "foo.exe");
}

#[test]
fn handles_path_with_no_extension() {
    assert_eq!(exe_file_name(r"C:\msys64\usr\bin\BASH"), "bash");
}

#[test]
fn handles_empty_and_trailing_separator() {
    assert_eq!(exe_file_name(""), "");
    assert_eq!(exe_file_name(r"C:\some\dir\"), "");
}

#[test]
fn utf16_decodes_with_and_without_trailing_null() {
    let with_null: Vec<u16> = "notepad.exe\0".encode_utf16().collect();
    let without_null: Vec<u16> = "notepad.exe".encode_utf16().collect();
    assert_eq!(utf16_to_string(&with_null), "notepad.exe");
    assert_eq!(utf16_to_string(&without_null), "notepad.exe");
}

#[test]
fn utf16_stops_at_the_first_null_not_the_buffer_end() {
    // The shape of an oversized fixed buffer: text, null, then garbage.
    let mut buf: Vec<u16> = "code.exe".encode_utf16().collect();
    buf.push(0);
    buf.extend("junk".encode_utf16());
    assert_eq!(utf16_to_string(&buf), "code.exe");
}

#[test]
fn utf16_handles_empty_buffer_and_non_ascii() {
    assert_eq!(utf16_to_string(&[]), "");
    assert_eq!(utf16_to_string(&[0]), "");
    let emoji: Vec<u16> = "café 🎤".encode_utf16().collect();
    assert_eq!(utf16_to_string(&emoji), "café 🎤");
}

#[test]
fn utf16_survives_a_lone_surrogate() {
    // from_utf16_lossy must not panic on a truncated surrogate pair.
    assert!(!utf16_to_string(&[0xD800, 0x0041]).is_empty());
}


#[test]
fn foreground_never_panics_and_is_well_formed() {
    let exe = wide("C:\\Apps\\Code.EXE\0");
    let title = wide("main.rs - Code\0");
    let ctx = foreground(Some(&exe), Some(&title));
    let name = ctx.exe.expect("the program is known");
    assert!(!name.is_empty(), "exe should be absent, not empty");
    assert_eq!(name, name.to_lowercase(), "exe must be lowercased");
    assert!(name.ends_with(".exe"), "expected an .exe name, got {name:?}");
    assert_eq!(ctx.title.as_deref(), Some("main.rs - Code"));
    let empty = foreground(Some(&wide("\0")), Some(&wide("")));
    assert_eq!(empty.exe, None);
    assert_eq!(empty.title, None);
    assert_eq!(foreground(None, None).exe, None);
}


#[test]
fn single_field_helpers_agree_with_the_combined_call() {
    let ctx = foreground(Some(&wide("C:\\a\\B.exe")), Some(&wide("t")));
    assert_eq!(foreground_exe(Some(&ctx)), ctx.exe.as_deref());
    assert_eq!(foreground_title(Some(&ctx)), ctx.title.as_deref());
    if let Some(exe) = foreground_exe(Some(&ctx)) {
        assert!(exe.ends_with(".exe"));
    }
    assert_eq!(foreground_exe(None), None);
}
