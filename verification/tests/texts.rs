use nib::file_icons::file_icon_meta;
use nib::lang::{lang_display, language_for};
use nib::order;
use nib::path;
use nib::select::wrap;
use nib::string_set::StringSet;
use nib::text;
use nib::utf16;

fn owned(v: &[&str]) -> Vec<String> {
    v.iter().map(|s| s.to_string()).collect()
}

const PATHS: [&str; 24] = [
    "", "/", "//", ".", "./", "..", "/.", "/..", "a", "a/", "/a", "/a/b", "/a//b", "/a/b/",
    "a/./b", "./a", "./a/b/.", "/a/b/./", "../a", "/a/b/c.txt", "/a//b//c", "a//", "./.", "/a/.hidden",
];

#[test]
fn white_space_is_that_of_std() {
    let mut n: u32 = 0;
    while n <= 0x10ffff {
        if let Some(c) = char::from_u32(n) {
            assert_eq!(text::white(c), c.is_whitespace(), "{:x}", n);
        }
        n += 1;
    }
}

#[test]
fn trimming_is_that_of_std() {
    for s in ["", " ", "\t a b \n", "\u{3000}x\u{a0}", "plain", "  ä "] {
        assert_eq!(text::trim(s), s.trim());
        assert_eq!(text::trim_start(s), s.trim_start());
        assert_eq!(text::is_blank(s), s.trim().is_empty());
    }
}

#[test]
fn lines_and_splitting_are_those_of_std() {
    for s in ["", "\n", "a", "a\n", "a\nb", "a\r\nb\r\n", "a\n\nb\r", "\r\n", "é\n字\n"] {
        assert_eq!(text::lines(s), s.lines().map(|l| l.to_string()).collect::<Vec<_>>());
        assert_eq!(text::split(s, '\n'), s.split('\n').map(|l| l.to_string()).collect::<Vec<_>>());
    }
    assert_eq!(text::join(&owned(&["a", "", "b"]), "--"), "a----b");
}

#[test]
fn numbers_are_written_in_decimal() {
    assert_eq!(text::dec_u64(0), "0");
    assert_eq!(text::dec_u64(u64::MAX), u64::MAX.to_string());
    assert_eq!(text::dec_i64(i64::MIN), i64::MIN.to_string());
    assert_eq!(text::dec_i64(-7), "-7");
    assert_eq!(text::dec_usize(1048576), "1048576");
}

#[test]
fn searching_in_texts_is_that_of_std() {
    for (s, p) in [("abcabc", "bc"), ("abc", ""), ("", "a"), ("aaa", "aa"), ("字符", "符")] {
        assert_eq!(text::contains(s, p), s.contains(p));
        assert_eq!(text::starts_with(s, p), s.starts_with(p));
        assert_eq!(text::ends_with(s, p), s.ends_with(p));
        assert_eq!(text::strip_prefix(s, p), s.strip_prefix(p).map(|x| x.to_string()));
    }
    assert_eq!(text::replace("a.b..c", ".", "/"), "a/b//c");
    assert_eq!(text::take_before("jdt://x?y?z", '?'), "jdt://x");
    assert_eq!(text::take_after_last("a/b/c", '/'), "c");
    assert_eq!(text::rsplit_once("a.b.c", '.'), Some(("a.b".to_string(), "c".to_string())));
    assert_eq!(text::rsplit_once("abc", '.'), None);
    assert_eq!(text::upper('q'), 'Q');
    assert_eq!(text::upper('ä'), 'ä');
}

#[test]
fn paths_are_compared_as_std_compares_them() {
    for a in PATHS {
        for b in PATHS {
            let (x, y) = (std::path::Path::new(a), std::path::Path::new(b));
            assert_eq!(path::eq(a, b), x == y, "{:?} {:?}", a, b);
            assert_eq!(path::starts_with(a, b), x.starts_with(y), "{:?} {:?}", a, b);
        }
    }
}

#[test]
fn paths_are_taken_apart_as_std_takes_them_apart() {
    let show = |p: Option<&std::path::Path>| p.map(|p| p.to_string_lossy().to_string());
    for a in PATHS {
        let x = std::path::Path::new(a);
        assert_eq!(path::parent(a), show(x.parent()), "parent of {:?}", a);
        assert_eq!(
            path::file_name(a),
            x.file_name().map(|n| n.to_string_lossy().to_string()),
            "name of {:?}",
            a
        );
        assert_eq!(
            path::split(a),
            x.components().map(|c| c.as_os_str().to_string_lossy().to_string()).collect::<Vec<_>>()
        );
        assert_eq!(path::absolute(a), x.is_absolute());
        for b in PATHS {
            let y = std::path::Path::new(b);
            assert_eq!(path::strip_prefix(a, b), show(x.strip_prefix(y).ok()), "{:?} - {:?}", a, b);
            assert_eq!(path::join(a, b), x.join(y).to_string_lossy(), "{:?} + {:?}", a, b);
        }
    }
}

#[test]
fn names_are_taken_apart_as_std_takes_them_apart() {
    for a in ["a.txt", "a.tar.gz", ".hidden", "plain", "a.", "..", ".a.b"] {
        let x = std::path::Path::new(a);
        if let Some(stem) = x.file_stem() {
            assert_eq!(path::file_stem(a), stem.to_string_lossy());
        } else {
            assert_eq!(path::file_stem(a), a);
        }
        assert_eq!(path::extension(a), x.extension().map(|e| e.to_string_lossy().to_string()));
    }
}

#[test]
fn sorting_is_that_of_std() {
    let mut files = owned(&["/b", "/a/c", "/a", "", "/ä", "/a/b", "/B", "/a", "/字", "/aa"]);
    let got = order::sorted(&files);
    files.sort();
    assert_eq!(got, files);
    assert_eq!(order::sorted(&Vec::new()), Vec::<String>::new());
    for a in ["", "a", "ab", "b", "é", "字"] {
        for b in ["", "a", "ab", "b", "é", "字"] {
            assert_eq!(order::le(a, b), a <= b);
        }
    }
}

#[test]
fn selection_wraps_around() {
    assert_eq!(wrap(0, -1, 3), 2);
    assert_eq!(wrap(2, 1, 3), 0);
    assert_eq!(wrap(1, 1, 3), 2);
    assert_eq!(wrap(wrap(0, 1, 5), -1, 5), 0);
    assert_eq!(wrap(wrap(0, -1, 5), 1, 5), 0);
    assert_eq!(wrap(wrap(3, 1234, 7), -1234, 7), 3);
}

#[test]
fn sets_of_texts_hold_each_text_once() {
    let mut s = StringSet::new();
    s.insert("a".to_string());
    s.insert("b".to_string());
    s.insert("a".to_string());
    assert_eq!(s.items, owned(&["a", "b"]));
    assert!(s.contains("a"));
    assert!(s.remove("a"));
    assert!(!s.remove("a"));
    assert!(!s.contains("a"));
    s.clear();
    assert!(s.is_empty());
}

#[test]
fn positions_count_code_units() {
    assert_eq!(utf16::utf16_len("a字😀"), 4);
    assert_eq!(utf16::utf16_len("a字😀"), "a字😀".encode_utf16().count());
    assert_eq!(utf16::position("a字😀b", 2), 2);
    assert_eq!(utf16::position("a字😀b", 4), 3);
}

#[test]
fn languages_go_by_the_extension() {
    assert_eq!(language_for("/p/src/Main.java"), "java");
    assert_eq!(language_for("/p/README.md"), "markdown");
    assert_eq!(language_for("/p/lib.rs"), "rust");
    assert_eq!(language_for("/p/Makefile"), "text");
    assert_eq!(language_for("/p/x.hpp"), "cpp");
    assert_eq!(lang_display("java"), "Java");
    assert_eq!(lang_display("bash"), "Shell");
    assert_eq!(lang_display("text"), "Plain Text");
}

#[test]
fn icons_ignore_the_case_of_names() {
    let m = file_icon_meta("POM.XML");
    assert_eq!((m.glyph, m.color, m.dim), ("m", 0x7faedb, false));
    let lock = file_icon_meta("Cargo.LOCK");
    assert_eq!((lock.glyph, lock.color, lock.dim), ("≡", 0x69737b, true));
    let image = file_icon_meta("Logo.PNG");
    assert_eq!((image.glyph, image.color, image.dim), ("▣", 0x8fbc8f, false));
    for name in ["Cargo.LOCK", "POM.XML", "Dockerfile", "Main.JAVA", "a.PNG"] {
        let (given, lower) = (file_icon_meta(name), file_icon_meta(&name.to_lowercase()));
        assert_eq!((given.glyph, given.color, given.dim), (lower.glyph, lower.color, lower.dim));
    }
    let (shout, whisper) = (file_icon_meta("READ.Md"), file_icon_meta("read.mD"));
    assert_eq!((shout.glyph, shout.color, shout.dim), (whisper.glyph, whisper.color, whisper.dim));
    let other = file_icon_meta("noext");
    assert_eq!((other.glyph, other.color, other.dim), ("·", 0xa7b0b6, false));
}
