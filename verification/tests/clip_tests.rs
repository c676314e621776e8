use timbits::clip::{
    content_from_files, content_from_text, content_hash, file_list_from, format_hash, from_hex,
    is_image_ext, is_image_path, parse_file_uri_text, paths_as_text, percent_decode, plan_ingest,
    plan_ingest_with, preview_of, staged_file_paths, text_preview, ClipContent, IngestPlan,
    MAX_TEXT_BYTES,
};
use timbits::storage::EntryKind;

#[test]
fn parse_file_uri_text_accepts_list() {
    let text = "file:///home/user/a.png\nfile:///tmp/b%20c.txt\n";
    let paths = parse_file_uri_text(text).expect("parsed");
    assert_eq!(paths.len(), 2);
    assert_eq!(paths[0], "/home/user/a.png");
    assert_eq!(paths[1], "/tmp/b c.txt");
}

#[test]
fn parse_file_uri_text_rejects_plain() {
    assert!(parse_file_uri_text("hello world").is_none());
    assert!(parse_file_uri_text("file://a\nnot-a-path").is_none());
}

#[test]
fn image_ext_detection() {
    assert!(is_image_path("/tmp/shot.PNG"));
    assert!(is_image_path("photo.jpeg"));
    assert!(!is_image_path("notes.txt"));
}

#[test]
fn files_hash_and_preview() {
    let content = ClipContent::Files(vec!["/tmp/one.png".to_string(), "/tmp/two.txt".to_string()]);
    assert!(content_hash(&content).starts_with('f'));
    let p = preview_of(&content);
    assert!(p.contains("2 files"));
    assert!(p.contains("one.png"));
}

#[test]
fn hex_digits_decode() {
    assert_eq!(from_hex(b'0'), Some(0));
    assert_eq!(from_hex(b'9'), Some(9));
    assert_eq!(from_hex(b'a'), Some(10));
    assert_eq!(from_hex(b'F'), Some(15));
    assert_eq!(from_hex(b'g'), None);
    assert_eq!(from_hex(b'%'), None);
}

#[test]
fn percent_escapes_decode() {
    assert_eq!(percent_decode("/tmp/b%20c.txt"), "/tmp/b c.txt");
    assert_eq!(percent_decode("/caf%C3%A9"), "/café");
    assert_eq!(percent_decode("100%"), "100%");
    assert_eq!(percent_decode("%zz%4"), "%zz%4");
    assert_eq!(percent_decode("/plain/path"), "/plain/path");
}

#[test]
fn file_list_skips_comments_and_checks_bare_paths() {
    let text = "# copied\n\nfile:///a\n/b\n";
    assert_eq!(
        file_list_from(text, &vec![false, false, false, true]),
        Some(vec!["/a".to_string(), "/b".to_string()])
    );
    assert_eq!(file_list_from(text, &vec![false, false, false, false]), None);
    assert_eq!(file_list_from("# only a comment\n", &vec![]), None);
    assert_eq!(file_list_from("  file:///x  \r\n", &vec![]), Some(vec!["/x".to_string()]));
}

#[test]
fn clipboard_text_becomes_item() {
    assert!(content_from_text(String::new()).is_none());
    match content_from_text("hello".to_string()) {
        Some(ClipContent::Text(t)) => assert_eq!(t, "hello"),
        _ => panic!("expected text"),
    }
    match content_from_text("file:///tmp/x.png".to_string()) {
        Some(ClipContent::Files(v)) => assert_eq!(v, vec!["/tmp/x.png".to_string()]),
        _ => panic!("expected files"),
    }
    assert!(content_from_files(vec![]).is_none());
    assert!(matches!(content_from_files(vec!["/a".to_string()]), Some(ClipContent::Files(_))));
}

#[test]
fn image_extensions() {
    for e in ["png", "JPG", "jpeg", "WebP", "bmp", "gif", "tif", "TIFF"] {
        assert!(is_image_ext(Some(e)), "{e}");
    }
    assert!(!is_image_ext(Some("txt")));
    assert!(!is_image_ext(None));
    assert!(!is_image_path("/tmp/.png"));
    assert!(!is_image_path("/tmp/noext"));
}

#[test]
fn hash_keys_are_formatted() {
    let t = ClipContent::Text("x".to_string());
    assert_eq!(format_hash(&t, 0xab), "t00000000000000ab");
    let i = ClipContent::Image { width: 3, height: 2, rgba: vec![0; 24] };
    assert_eq!(format_hash(&i, u64::MAX), "iffffffffffffffff-3x2");
    let f = ClipContent::Files(vec![]);
    assert_eq!(format_hash(&f, 1), "f0000000000000001");
}

#[test]
fn hash_follows_content() {
    let a = content_hash(&ClipContent::Text("hello".to_string()));
    let b = content_hash(&ClipContent::Text("hello".to_string()));
    let c = content_hash(&ClipContent::Text("hellp".to_string()));
    assert_eq!(a, b);
    assert_ne!(a, c);
    assert_eq!(a.len(), 17);
    let expected = format!("t{:016x}", seahash::hash(b"hello"));
    assert_eq!(a, expected);
    let img = content_hash(&ClipContent::Image { width: 1, height: 1, rgba: vec![1, 2, 3, 4] });
    assert_eq!(img, format!("i{:016x}-1x1", seahash::hash(&[1, 2, 3, 4])));
}

#[test]
fn previews() {
    assert_eq!(text_preview("  a\n\tb   c "), "a b c");
    let long = "x".repeat(200);
    assert_eq!(text_preview(&long).chars().count(), 120);
    assert_eq!(
        preview_of(&ClipContent::Image { width: 640, height: 480, rgba: vec![] }),
        "Image 640x480"
    );
    assert_eq!(preview_of(&ClipContent::Files(vec!["/tmp/one.png".to_string()])), "one.png");
    let many = ClipContent::Files(vec![
        "/a/1.txt".to_string(),
        "/a/2.txt".to_string(),
        "/a/3.txt".to_string(),
        "/a/4.txt".to_string(),
    ]);
    assert_eq!(preview_of(&many), "4 files: 1.txt, 2.txt, 3.txt");
    assert_eq!(paths_as_text(&vec!["/a".to_string(), "/b".to_string()]), "/a\n/b");
}

#[test]
fn ingest_plans() {
    match plan_ingest_with(ClipContent::Text("hi".to_string()), 7, &vec![]) {
        IngestPlan::Store { kind, text } => {
            assert_eq!(kind, EntryKind::Text);
            assert_eq!(text, "hi");
        }
        _ => panic!("expected store"),
    }
    match plan_ingest_with(ClipContent::Text("see\n  file:///x\n".to_string()), 7, &vec![]) {
        IngestPlan::Store { kind, .. } => assert_eq!(kind, EntryKind::Files),
        _ => panic!("expected store"),
    }
    let big = "a".repeat(MAX_TEXT_BYTES + 1);
    assert!(matches!(plan_ingest_with(ClipContent::Text(big), 7, &vec![]), IngestPlan::Skip));
    let exact = "a".repeat(MAX_TEXT_BYTES);
    assert!(matches!(plan_ingest_with(ClipContent::Text(exact), 7, &vec![]), IngestPlan::Store { .. }));
    match plan_ingest_with(ClipContent::Image { width: 1, height: 1, rgba: vec![0; 4] }, 0x1f, &vec![]) {
        IngestPlan::Pixels { png_name } => assert_eq!(png_name, "000000000000001f.png"),
        _ => panic!("expected pixels"),
    }
    match plan_ingest_with(ClipContent::Files(vec!["/p/shot.png".to_string()]), 2, &vec![true]) {
        IngestPlan::ImageFile { text, src, png_name } => {
            assert_eq!(text, "/p/shot.png");
            assert_eq!(src, "/p/shot.png");
            assert_eq!(png_name, "0000000000000002.png");
        }
        _ => panic!("expected image file"),
    }
    match plan_ingest_with(
        ClipContent::Files(vec!["/p/a.png".to_string(), "/p/b.txt".to_string(), "/p/c.JPG".to_string()]),
        2,
        &vec![true, true, false],
    ) {
        IngestPlan::Files { text, ocr } => {
            assert_eq!(text, "/p/a.png\n/p/b.txt\n/p/c.JPG");
            assert_eq!(ocr, vec!["/p/a.png".to_string()]);
        }
        _ => panic!("expected files"),
    }
    match plan_ingest(ClipContent::Image { width: 1, height: 1, rgba: vec![9; 4] }, &vec![]) {
        IngestPlan::Pixels { png_name } => {
            assert_eq!(png_name, format!("{:016x}.png", seahash::hash(&[9, 9, 9, 9])))
        }
        _ => panic!("expected pixels"),
    }
}

#[test]
fn staged_lists_keep_nonblank_lines() {
    assert_eq!(
        staged_file_paths(" /a \n\n/b\r\n  \n"),
        vec!["/a".to_string(), "/b".to_string()]
    );
    assert!(staged_file_paths("").is_empty());
}
