use openshell_vm::path::{Part, UnixPath};
use openshell_vm::text::{
    any_line_starts_with, contains_text, decimal_text, ends_with, first_line, is_white_space,
    octal_text, parse_usize, same_text, second_word, signed_text, split_all, split_once,
    starts_with, trim,
};
use std::path::{Component, Path};

fn p(path: &str) -> UnixPath {
    UnixPath::new(path)
}

const PATHS: [&str; 24] = [
    "", "/", "//", "a", "/a", "a/", "/a/", "a/b", "a//b", "./a", "a/.", "a/./b", ".", "..", "../a",
    "/..", "a/..", "/a/b/c.txt", "a/b/", "//a", "./", "./.", "/.", "a/b/..",
];

#[test]
fn paths_agree_with_the_standard_library() {
    for text in PATHS {
        let ours = p(text);
        let theirs = Path::new(text);
        let expected: Vec<String> = theirs
            .components()
            .map(|c| match c {
                Component::RootDir => "<root>".to_string(),
                Component::CurDir => "<current>".to_string(),
                Component::ParentDir => "<parent>".to_string(),
                Component::Normal(n) => n.to_str().unwrap().to_string(),
                Component::Prefix(_) => unreachable!(),
            })
            .collect();
        let found: Vec<String> = ours
            .components()
            .into_iter()
            .map(|c| match c {
                Part::Root => "<root>".to_string(),
                Part::Current => "<current>".to_string(),
                Part::Parent => "<parent>".to_string(),
                Part::Name(n) => String::from_utf8(n).unwrap(),
            })
            .collect();
        assert_eq!(found, expected, "components of {text:?}");
        assert_eq!(
            ours.parent().map(|q| q.to_str().unwrap()),
            theirs.parent().map(|q| q.to_str().unwrap().to_string()),
            "parent of {text:?}"
        );
        assert_eq!(
            ours.file_name().map(|n| String::from_utf8(n).unwrap()),
            theirs.file_name().map(|n| n.to_str().unwrap().to_string()),
            "file name of {text:?}"
        );
        for part in PATHS {
            assert_eq!(
                ours.join(part).to_str().unwrap(),
                theirs.join(part).to_str().unwrap(),
                "{text:?} joined with {part:?}"
            );
            assert_eq!(
                ours.same_steps(&p(part)),
                theirs == Path::new(part),
                "{text:?} and {part:?}"
            );
        }
    }
}

#[test]
fn paths_that_are_no_text_have_a_display() {
    let path = UnixPath {
        bytes: vec![b'a', 0xff],
    };
    assert_eq!(path.to_str(), None);
    assert_eq!(path.display(), "a\u{fffd}");
    assert_eq!(p("x").display(), "x");
}

#[test]
fn white_space_is_that_of_unicode() {
    for n in 0..0x11_0000u32 {
        if let Some(c) = char::from_u32(n) {
            assert_eq!(is_white_space(c), c.is_whitespace(), "{n:x}");
        }
    }
}

#[test]
fn trimming_and_words_agree_with_the_standard_library() {
    for text in ["", " ", "a", " a ", "\u{3000}a b\t", "a  b c", "\n\nx y\n"] {
        assert_eq!(trim(text), text.trim());
        assert_eq!(
            second_word(text),
            text.split_whitespace().nth(1).map(str::to_string)
        );
    }
}

#[test]
fn lines_agree_with_the_standard_library() {
    for text in ["", "\n", "a", "a\n", "a\r\nb", "a\rb\nc", "\r\n", "x\r"] {
        assert_eq!(first_line(text), text.lines().next().map(str::to_string));
        for prefix in ["a", "b", "c", "x"] {
            assert_eq!(
                any_line_starts_with(text, prefix),
                text.lines().any(|l| l.starts_with(prefix)),
                "{text:?} {prefix:?}"
            );
        }
    }
    assert!(!any_line_starts_with("a\nb", "a\nb"));
}

#[test]
fn splitting_agrees_with_the_standard_library() {
    for text in ["", "=", "a", "a=b", "a=b=c", "==", "\u{e9}=\u{e8}"] {
        assert_eq!(
            split_once(text, '='),
            text.split_once('=')
                .map(|(a, b)| (a.to_string(), b.to_string()))
        );
        let parts: Vec<String> = text.split('=').map(str::to_string).collect();
        assert_eq!(split_all(text, '='), parts);
    }
}

#[test]
fn prefixes_suffixes_and_occurrences() {
    for (text, part) in [
        ("", ""),
        ("abc", ""),
        ("abc", "a"),
        ("abc", "bc"),
        ("abc", "abc"),
        ("abc", "abcd"),
        ("aab", "ab"),
        ("abc", "x"),
    ] {
        assert_eq!(starts_with(text, part), text.starts_with(part));
        assert_eq!(ends_with(text, part), text.ends_with(part));
        assert_eq!(contains_text(text, part), text.contains(part));
        assert_eq!(same_text(text, part), text == part);
    }
}

#[test]
fn numbers_are_written_and_read() {
    for n in [0, 1, 9, 10, 644, 2048, u64::MAX] {
        assert_eq!(decimal_text(n), n.to_string());
        assert_eq!(octal_text(n), format!("{n:o}"));
    }
    for n in [0, 7, -7, i32::MAX, i32::MIN] {
        assert_eq!(signed_text(n), n.to_string());
    }
    for text in [
        "", "0", "+5", "-5", "12a", "007", "+", "18446744073709551615", "18446744073709551616",
        " 1", "\u{0661}",
    ] {
        assert_eq!(parse_usize(text), text.parse::<usize>().ok(), "{text:?}");
    }
}

#[test]
fn a_parent_takes_all_steps_but_the_last() {
    for text in ["/a/b", "a//b/.", "./a", "/a/../", "a/./b", "//x//y//", "a"] {
        let path = UnixPath::new(text);
        let all = path.components().len();
        let parent = path.parent().expect("it has a step");
        assert_eq!(parent.components().len(), all - 1, "{text}");
        match path.file_name() {
            Some(name) => {
                let again = parent.join_with(&UnixPath { bytes: name });
                assert!(again.same_steps(&path), "{text}");
            }
            None => assert_eq!(text, "/a/../"),
        }
    }
    assert!(UnixPath::new("/").parent().is_none());
    assert!(UnixPath::new("").parent().is_none());
}
