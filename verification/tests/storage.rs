use pombo_correio::storage::{
    file_name_of, join_path_string, media_type_for, safe_destination, split_extension_of,
    stored_file_name, PathStyle,
};

const UNIX: PathStyle = PathStyle::Unix;
const WINDOWS: PathStyle = PathStyle::Windows;

fn absent(_: String) -> bool {
    false
}

#[test]
fn destination_never_overwrites_an_existing_file() {
    let root = "/tmp/pombocorreio-test-root";
    let existing = format!("{root}/photo.jpg");
    let taken = move |p: String| p == existing;
    assert_eq!(
        safe_destination(root, "photo.jpg", UNIX, taken),
        format!("{root}/photo (1).jpg")
    );
}

#[test]
fn destination_strips_parent_directories() {
    let root = "/tmp/inbox";
    assert_eq!(
        safe_destination(root, "../../secret.txt", UNIX, absent),
        "/tmp/inbox/secret.txt"
    );
}

#[test]
fn destination_skips_every_taken_number() {
    let taken = |p: String| {
        p == "/in/a.tar.gz" || p == "/in/a.tar (1).gz" || p == "/in/a.tar (2).gz"
    };
    assert_eq!(safe_destination("/in", "a.tar.gz", UNIX, taken), "/in/a.tar (3).gz");
}

#[test]
fn destination_numbers_names_without_extension() {
    let taken = |p: String| p == "/in/README";
    assert_eq!(safe_destination("/in", "README", UNIX, taken), "/in/README (1)");
    let hidden = |p: String| p == "/in/.bashrc";
    assert_eq!(safe_destination("/in", ".bashrc", UNIX, hidden), "/in/.bashrc (1)");
}

#[test]
fn destination_without_a_name_uses_received_file() {
    assert_eq!(safe_destination("/in/", "dir/..", UNIX, absent), "/in/received-file");
    assert_eq!(safe_destination("", "/", UNIX, absent), "received-file");
}

#[test]
fn destination_falls_back_to_a_random_prefix() {
    let r = safe_destination("/in", "x.bin", UNIX, |_| true);
    assert!(r.starts_with("/in/"));
    assert!(r.ends_with("-x.bin"));
    let id = &r["/in/".len()..r.len() - "-x.bin".len()];
    assert_eq!(id.len(), 36);
    assert_eq!(&id[14..15], "4");
    for (i, c) in id.chars().enumerate() {
        if i == 8 || i == 13 || i == 18 || i == 23 {
            assert_eq!(c, '-');
        } else {
            assert!(c.is_ascii_hexdigit() && !c.is_ascii_uppercase());
        }
    }
}

#[test]
fn file_name_follows_path_rules() {
    assert_eq!(file_name_of("foo.txt", UNIX).as_deref(), Some("foo.txt"));
    assert_eq!(file_name_of("a/b/foo.txt/.//", UNIX).as_deref(), Some("foo.txt"));
    assert_eq!(file_name_of("a/./b", UNIX).as_deref(), Some("b"));
    assert_eq!(file_name_of("foo.txt/..", UNIX), None);
    assert_eq!(file_name_of("/", UNIX), None);
    assert_eq!(file_name_of(".", UNIX), None);
    assert_eq!(file_name_of("", UNIX), None);
}

#[test]
fn extension_follows_path_rules() {
    assert_eq!(split_extension_of("a.tar.gz"), ("a.tar".to_string(), Some("gz".to_string())));
    assert_eq!(split_extension_of(".bashrc"), (".bashrc".to_string(), None));
    assert_eq!(split_extension_of("a."), ("a".to_string(), Some(String::new())));
    assert_eq!(split_extension_of("plain"), ("plain".to_string(), None));
    assert_eq!(split_extension_of(".."), ("..".to_string(), None));
}

#[test]
fn join_adds_one_separator() {
    assert_eq!(join_path_string("/tmp", "x", UNIX), "/tmp/x");
    assert_eq!(join_path_string("/tmp/", "x", UNIX), "/tmp/x");
    assert_eq!(join_path_string("", "x", UNIX), "x");
}

#[test]
fn media_type_comes_from_the_extension() {
    assert_eq!(media_type_for("photo.jpg", UNIX), "image/jpeg");
    assert_eq!(media_type_for("/tmp/in/notes.txt", UNIX), "text/plain");
    assert_eq!(media_type_for("archive", UNIX), "application/octet-stream");
    assert_eq!(media_type_for("weird.zzzzqq", UNIX), "application/octet-stream");
    assert_eq!(media_type_for("dot.", UNIX), "application/octet-stream");
}

#[test]
fn stored_name_is_the_last_component() {
    assert_eq!(stored_file_name("/tmp/in/photo (1).jpg", UNIX), "photo (1).jpg");
    assert_eq!(stored_file_name("/", UNIX), "received-file");
}

#[test]
fn windows_destination_strips_backslash_parents() {
    let inbox = r"C:\Users\u\Downloads\Pombo Correio";
    assert_eq!(
        safe_destination(inbox, r"..\..\evil.bat", WINDOWS, absent),
        r"C:\Users\u\Downloads\Pombo Correio\evil.bat"
    );
    assert_eq!(
        safe_destination(inbox, r"C:evil.bat", WINDOWS, absent),
        r"C:\Users\u\Downloads\Pombo Correio\evil.bat"
    );
    let taken = |p: String| p == r"C:\in\photo.jpg";
    assert_eq!(safe_destination(r"C:\in", r"a/b\photo.jpg", WINDOWS, taken), r"C:\in\photo (1).jpg");
}

#[test]
fn backslash_is_a_plain_character_on_unix() {
    assert_eq!(file_name_of(r"..\..\evil.bat", UNIX).as_deref(), Some(r"..\..\evil.bat"));
    assert_eq!(
        safe_destination("/in", r"..\..\evil.bat", UNIX, absent),
        r"/in/..\..\evil.bat"
    );
}

#[test]
fn windows_file_name_follows_path_rules() {
    assert_eq!(file_name_of(r"dir\sub\file.txt", WINDOWS).as_deref(), Some("file.txt"));
    assert_eq!(file_name_of(r"dir/sub\file.txt\.\", WINDOWS).as_deref(), Some("file.txt"));
    assert_eq!(file_name_of(r"C:file.txt", WINDOWS).as_deref(), Some("file.txt"));
    assert_eq!(file_name_of(r"C:\file.txt", WINDOWS).as_deref(), Some("file.txt"));
    assert_eq!(file_name_of(r"C:", WINDOWS), None);
    assert_eq!(file_name_of(r"\\server\share", WINDOWS), None);
    assert_eq!(file_name_of(r"\\server\share\x.txt", WINDOWS).as_deref(), Some("x.txt"));
    assert_eq!(file_name_of(r"\\server", WINDOWS).as_deref(), Some("server"));
    assert_eq!(file_name_of(r"\\?\C:\x.txt", WINDOWS).as_deref(), Some("x.txt"));
    assert_eq!(file_name_of(r"dir\..", WINDOWS), None);
    assert_eq!(file_name_of(r"x\a:b", WINDOWS).as_deref(), Some("a:b"));
}

#[test]
fn windows_join_uses_backslash() {
    assert_eq!(join_path_string(r"C:\d", "x", WINDOWS), r"C:\d\x");
    assert_eq!(join_path_string(r"C:\d\", "x", WINDOWS), r"C:\d\x");
    assert_eq!(join_path_string(r"C:\d/", "x", WINDOWS), r"C:\d/x");
    assert_eq!(join_path_string("C:", "x", WINDOWS), "C:x");
    assert_eq!(join_path_string("", "x", WINDOWS), "x");
    assert_eq!(stored_file_name(r"C:\in\photo (1).jpg", WINDOWS), "photo (1).jpg");
    assert_eq!(media_type_for(r"C:\in\photo.jpg", WINDOWS), "image/jpeg");
}

#[test]
fn windows_verbatim_paths_follow_path_rules() {
    assert_eq!(file_name_of(r"\\?\UNC\server\share", WINDOWS), None);
    assert_eq!(file_name_of(r"\\?\UNC\server\share\x.txt", WINDOWS).as_deref(), Some("x.txt"));
    assert_eq!(file_name_of(r"\\?\C:\dir\a/b", WINDOWS).as_deref(), Some("a/b"));
    assert_eq!(file_name_of(r"\\?\C:/foo/bar", WINDOWS), None);
    assert_eq!(file_name_of(r"\\?\C:\x\.", WINDOWS), None);
    assert_eq!(file_name_of(r"\\.\COM1\x.txt", WINDOWS).as_deref(), Some("x.txt"));
    assert_eq!(file_name_of(r"//?/x/y.txt", WINDOWS).as_deref(), Some("y.txt"));
    assert_eq!(stored_file_name(r"\\?\C:\in\a/b", WINDOWS), "a/b");
}

#[test]
fn windows_verbatim_names_stay_in_the_inbox() {
    assert_eq!(
        safe_destination(r"C:\in", r"\\?\C:\x\../../evil.txt", WINDOWS, absent),
        r"C:\in\evil.txt"
    );
    assert_eq!(
        safe_destination(r"C:\in", r"\\?\UNC\server\share", WINDOWS, absent),
        r"C:\in\received-file"
    );
}

#[test]
fn windows_verbatim_inbox_is_rebuilt_from_its_components() {
    assert_eq!(join_path_string(r"\\?\C:\in\\sub\", "x", WINDOWS), r"\\?\C:\in\sub\x");
    assert_eq!(join_path_string(r"\\?\C:", "x", WINDOWS), r"\\?\C:\x");
    assert_eq!(join_path_string(r"\\?\", "x", WINDOWS), r"\\?\\x");
}

#[test]
fn destination_ignores_the_directory_part() {
    let taken = |p: String| p == "/in/c.txt";
    assert_eq!(
        safe_destination("/in", "a/b/c.txt", UNIX, taken),
        safe_destination("/in", "c.txt", UNIX, taken)
    );
    assert_eq!(
        safe_destination(r"C:\in", r"dir\c.txt", WINDOWS, absent),
        safe_destination(r"C:\in", "c.txt", WINDOWS, absent)
    );
}
