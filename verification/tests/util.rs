use downloadcore::url::host_of;
use downloadcore::util::{
    extended_filename, filename_from_url, job_key, name_of_segments, pad_from,
    parse_content_range, parse_filename, percent_decode, percent_decoded_bytes, plain_filename,
    name_of_component, sanitize_component, sanitize_name,
};

#[test]
fn content_range_is_read() {
    assert_eq!(parse_content_range("bytes 0-0/4194304"), Some((0, 0, 4194304)));
    assert_eq!(parse_content_range("  BYTES\t10-19/*  "), Some((10, 19, -1)));
    assert_eq!(parse_content_range("bytes 5 - 9 / 10"), Some((5, 9, 10)));
    assert_eq!(parse_content_range("bytes=0-0/1"), None);
    assert_eq!(parse_content_range("bytes0-0/1"), Some((0, 0, 1)));
}

#[test]
fn content_range_without_sense_is_refused() {
    assert_eq!(parse_content_range(""), None);
    assert_eq!(parse_content_range("byte"), None);
    assert_eq!(parse_content_range("items 0-1/2"), None);
    assert_eq!(parse_content_range("bytes 0-1"), None);
    assert_eq!(parse_content_range("bytes 01/2"), None);
    assert_eq!(parse_content_range("bytes x-1/2"), None);
    assert_eq!(parse_content_range("bytes 0-y/2"), None);
    assert_eq!(parse_content_range("bytes 0-1/z"), None);
    assert_eq!(parse_content_range("bytes */10"), None);
    // a start with a sign of its own leaves nothing before the dash
    assert_eq!(parse_content_range("bytes -5-1/2"), None);
}

#[test]
fn content_range_is_read_as_written() {
    for (a, b, n) in [(0i64, 0i64, 1i64), (7, 99, 100), (0, i64::MAX, i64::MAX)] {
        assert_eq!(parse_content_range(&format!("bytes {a}-{b}/{n}")), Some((a, b, n)));
        assert_eq!(parse_content_range(&format!("bytes {a}-{b}/*")), Some((a, b, -1)));
    }
    assert_eq!(parse_content_range("bytes 3--4/-5"), Some((3, -4, -5)));
}

#[test]
fn filename_is_taken_from_disposition() {
    assert_eq!(parse_filename(""), "");
    assert_eq!(parse_filename("inline"), "");
    assert_eq!(parse_filename("attachment; filename=\"a b.txt\"; x=1"), "a b.txt");
    assert_eq!(parse_filename("attachment; FileName= plain.bin ;"), "plain.bin");
    assert_eq!(parse_filename("attachment; filename*=UTF-8''%E4%BD%A0%20x.txt"), "你 x.txt");
    assert_eq!(
        parse_filename("attachment; filename=\"old\"; filename*=utf-8''new%2Ebin; y"),
        "new.bin"
    );
    // an extended parameter without the two quotes does not count
    assert_eq!(parse_filename("filename*=oops; filename=\"kept\""), "kept");
    assert_eq!(extended_filename("filename*=UTF-8''a%20b").as_deref(), Some("a%20b"));
    assert_eq!(extended_filename("filename=a"), None);
    assert_eq!(plain_filename("filename=\"a\"").as_deref(), Some("a"));
    assert_eq!(plain_filename("name=a"), None);
}

#[test]
fn percent_sequences_are_replaced() {
    assert_eq!(percent_decode("a%20b"), "a b");
    assert_eq!(percent_decode("%41%6a%6A"), "Ajj");
    assert_eq!(percent_decode("100%"), "100%");
    assert_eq!(percent_decode("%4"), "%4");
    assert_eq!(percent_decode("%zz%41"), "%zzA");
    assert_eq!(percent_decode("你好"), "你好");
    // what is no text is marked
    assert_eq!(percent_decode("%ff!"), "\u{fffd}!");
    assert_eq!(percent_decoded_bytes(b"%ff%00x"), vec![255, 0, b'x']);
}

#[test]
fn plain_text_is_kept() {
    for s in ["", "a.txt", "文件 (1).bin", "a+b&c"] {
        assert_eq!(percent_decode(s), s);
    }
}

#[test]
fn name_is_guessed_from_address() {
    assert_eq!(filename_from_url("https://example.com/dir/file%20name.zip?x=1#f"), "file name.zip");
    assert_eq!(filename_from_url("https://example.com/file.bin"), "file.bin");
    assert_eq!(filename_from_url("https://example.com/dir/"), "");
    assert_eq!(filename_from_url("https://example.com"), "");
    assert_eq!(filename_from_url("not an address"), "");
    assert_eq!(filename_from_url("mailto:someone@example.com"), "");
    assert_eq!(name_of_segments(None), "");
    assert_eq!(name_of_segments(Some(vec![])), "");
    assert_eq!(name_of_segments(Some(vec!["a".to_string(), "b%2Ec".to_string()])), "b.c");
    assert_eq!(name_of_segments(Some(vec!["a".to_string(), ".".to_string()])), "");
    assert_eq!(name_of_segments(Some(vec!["/".to_string()])), "");
}

#[test]
fn host_is_taken_from_address() {
    assert_eq!(host_of("https://Example.com:8080/x").as_deref(), Some("example.com"));
    assert_eq!(host_of("http://127.0.0.1/x").as_deref(), Some("127.0.0.1"));
    assert_eq!(host_of("data:text/plain,x"), None);
    assert_eq!(host_of("nothing"), None);
}

#[test]
fn names_are_made_safe() {
    assert_eq!(sanitize_name("report.pdf"), "report.pdf");
    assert_eq!(sanitize_name("dir/report.pdf"), "report.pdf");
    assert_eq!(sanitize_name("/a/b/c.txt"), "c.txt");
    assert_eq!(sanitize_name("Movie: Part 2.mkv"), "Movie_ Part 2.mkv");
    assert_eq!(sanitize_name("dir/12:30.log"), "12_30.log");
    assert_eq!(sanitize_name("a/b/"), "b");
    assert_eq!(sanitize_name("a/b/.//"), "b");
    assert!(["a_b.txt", "b.txt"].contains(&sanitize_name("a\\b.txt").as_str()));
    assert_eq!(sanitize_name("a*b?c<d>e|f\"g"), "a_b_c_d_e_f_g");
    assert_eq!(sanitize_name(" .hidden. "), "hidden");
    assert_eq!(sanitize_name(""), "download.bin");
    assert_eq!(sanitize_name("."), "download.bin");
    assert_eq!(sanitize_name(".."), "download.bin");
    assert_eq!(sanitize_name("../.."), "_");
    assert_eq!(sanitize_name("./"), "_");
    assert_eq!(sanitize_name("././."), "_._");
    assert!(["b", "__a_b"].contains(&sanitize_name("//a/b").as_str()));
    assert_eq!(name_of_component("x/y", Some("y".to_string())), "y");
    assert_eq!(name_of_component("x/..", None), "x_");
    assert_eq!(sanitize_component("a/b\\c:d"), "a_b_c_d");
    assert_eq!(sanitize_component("..."), "download.bin");
}

#[test]
fn cleaning_a_clean_name_changes_nothing() {
    for s in ["x", "a/b", " . ", "con:1", "你好.txt"] {
        let once = sanitize_component(s);
        assert_eq!(sanitize_component(&once), once);
        assert!(!once.is_empty());
        assert!(!once.contains(['/', '\\', ':', '*', '?', '"', '<', '>', '|']));
    }
}

#[test]
fn job_key_is_the_fnv_hash() {
    assert_eq!(job_key(""), "cbf29ce484222325");
    assert_eq!(job_key("a"), "af63dc4c8601ec8c");
    assert_eq!(job_key("foobar"), "85944171f73967e8");
    assert_eq!(job_key("你").len(), 16);
}

#[test]
fn part_files_have_padded_names() {
    assert_eq!(pad_from(0), "0000000000000000000");
    assert_eq!(pad_from(1048576), "0000000000001048576");
    assert_eq!(pad_from(i64::MAX), "9223372036854775807");
    assert_eq!(pad_from(-5), format!("{:019}", -5));
    assert_eq!(pad_from(i64::MIN), format!("{:019}", i64::MIN));
    assert_ne!(pad_from(1), pad_from(10));
}
