use mediatools::cleanup_file_names::{plan_rename, run, sanitize_name, RenameDecision};
use mediatools::paths::{
    extension, file_name, has_video_extension, path_extension, remap, retarget, with_extension,
};
use mediatools::text::{append_decimal_two, char_is_space, decimal_string};

fn parts(list: &[&str]) -> Vec<String> {
    list.iter().map(|s| s.to_string()).collect()
}

#[test]
fn sanitize_removes_bracketed_suffix_and_leading_space() {
    assert_eq!(sanitize_name("Badlands [12345678].flac"), "Badlands.flac");
}

#[test]
fn sanitize_removes_every_annotation() {
    assert_eq!(sanitize_name("a [x] b\t[y z].mp3"), "a b.mp3");
    assert_eq!(sanitize_name("[only]"), "");
    assert_eq!(sanitize_name("x[]y"), "xy");
    assert_eq!(sanitize_name("a   [[x]]b"), "a]b");
    assert_eq!(sanitize_name("a [1][2] [3]z"), "az");
}

#[test]
fn sanitize_leaves_plain_names_alone() {
    assert_eq!(sanitize_name("plain name.flac"), "plain name.flac");
    assert_eq!(sanitize_name("open [bracket.flac"), "open [bracket.flac");
    assert_eq!(sanitize_name("close] only"), "close] only");
    assert_eq!(sanitize_name("trailing space  "), "trailing space  ");
    assert_eq!(sanitize_name(""), "");
}

#[test]
fn plain_name_is_not_renamed() {
    assert!(matches!(plan_rename("Badlands.flac"), RenameDecision::Keep));
}

#[test]
fn annotated_name_is_renamed() {
    match plan_rename("Album [2019]") {
        RenameDecision::Rename(n) => assert_eq!(n, "Album"),
        _ => panic!("a rename was expected"),
    }
}

#[test]
fn sanitize_agrees_with_the_pattern() {
    let re = lazy_regex::Regex::new(r"\s*\[[^\]]*\]").unwrap();
    let names = [
        "Badlands [12345678].flac",
        "a [x] b\t[y z].mp3",
        "  [lead] x",
        "x [unclosed",
        "x ] [ y ] z",
        "[[a]]",
        "[a][b]",
        "a\u{a0}[nbsp]b",
        "a\u{2003}\u{3000}[wide]b",
        "a\u{200b}[zero width]b",
        "\u{e9}t\u{e9} [\u{e9}]\u{fc}",
        "new\n[line\nbody]x",
        "   ",
        " [",
        "] [",
        "",
    ];
    for name in names.iter() {
        assert_eq!(sanitize_name(name), re.replace_all(name, "").into_owned());
    }
}

#[test]
fn sanitize_agrees_with_the_pattern_on_every_space() {
    let re = lazy_regex::Regex::new(r"\s*\[[^\]]*\]").unwrap();
    for n in 0u32..0x3100 {
        if let Some(c) = char::from_u32(n) {
            let name = format!("a{}{}[x]{}b", c, c, c);
            assert_eq!(sanitize_name(&name), re.replace_all(&name, "").into_owned());
        }
    }
}

#[test]
fn whitespace_is_the_unicode_property() {
    for n in 0u32..0x3100 {
        if let Some(c) = char::from_u32(n) {
            assert_eq!(char_is_space(c), c.is_whitespace());
        }
    }
}

#[test]
fn cleanup_run_decides_each_entry_in_order() {
    let names = vec!["one [1].mp3".to_string(), "two.mp3".to_string(), "dir [x]".to_string()];
    let decisions = run(&names);
    assert_eq!(decisions.len(), 3);
    assert!(matches!(&decisions[0], RenameDecision::Rename(n) if n == "one.mp3"));
    assert!(matches!(&decisions[1], RenameDecision::Keep));
    assert!(matches!(&decisions[2], RenameDecision::Rename(n) if n == "dir"));
}

#[test]
fn extension_follows_the_last_dot() {
    assert_eq!(extension("song.flac"), Some("flac".to_string()));
    assert_eq!(extension("archive.tar.gz"), Some("gz".to_string()));
    assert_eq!(extension("trailing."), Some(String::new()));
    assert_eq!(extension(".hidden"), None);
    assert_eq!(extension(".hidden.txt"), Some("txt".to_string()));
    assert_eq!(extension("noext"), None);
    assert_eq!(extension(".."), None);
    assert_eq!(extension(""), None);
}

#[test]
fn with_extension_replaces_or_adds() {
    assert_eq!(with_extension("song.flac", "mp3"), "song.mp3");
    assert_eq!(with_extension("song", "mp3"), "song.mp3");
    assert_eq!(with_extension("a.b.c", "ogg"), "a.b.ogg");
    assert_eq!(with_extension(".hidden", "ogg"), ".hidden.ogg");
    assert_eq!(with_extension("song.flac", ""), "song");
    assert_eq!(with_extension("..", "mp3"), "..");
    assert_eq!(with_extension(".", "mp3"), ".");
    assert_eq!(with_extension("/", "mp3"), "/");
}

#[test]
fn file_name_is_the_last_component() {
    assert_eq!(file_name(&parts(&["a", "b.mkv"])), Some("b.mkv".to_string()));
    assert_eq!(file_name(&parts(&[])), None);
    assert_eq!(file_name(&parts(&["a", ".."])), None);
    assert_eq!(file_name(&parts(&["."])), None);
    assert_eq!(file_name(&parts(&["/"])), None);
    assert_eq!(file_name(&parts(&["/", "a"])), Some("a".to_string()));
}

#[test]
fn extensions_agree_with_std_paths() {
    let names = ["song.flac", "a.b.c", ".hidden", ".hidden.x", "noext", "trailing.", "..", "a..b", "...", "x.\u{e9}"];
    for name in names.iter() {
        let path = std::path::Path::new(name);
        let expected = path.extension().map(|e| e.to_string_lossy().into_owned());
        assert_eq!(extension(name), expected);
        for ext in ["mp3", ""].iter() {
            let renamed = path.with_extension(ext).to_string_lossy().into_owned();
            assert_eq!(with_extension(name, ext), renamed);
        }
    }
}

#[test]
fn path_extension_defaults_to_empty() {
    assert_eq!(path_extension(&parts(&["a", "b.flac"])), "flac");
    assert_eq!(path_extension(&parts(&["a", "b"])), "");
    assert_eq!(path_extension(&parts(&[])), "");
}

#[test]
fn remap_substitutes_the_root() {
    let root = parts(&["music", "in"]);
    let dest = parts(&["out"]);
    assert_eq!(
        remap(&root, &parts(&["music", "in", "a", "b", "f.flac"]), &dest),
        Some(parts(&["out", "a", "b", "f.flac"]))
    );
    assert_eq!(remap(&root, &parts(&["music", "in"]), &dest), Some(parts(&["out"])));
}

#[test]
fn remap_refuses_paths_outside_the_root() {
    let root = parts(&["music", "in"]);
    let dest = parts(&["out"]);
    assert_eq!(remap(&root, &parts(&["music", "other", "f.flac"]), &dest), None);
    assert_eq!(remap(&root, &parts(&["music"]), &dest), None);
}

#[test]
fn retarget_changes_only_the_last_component() {
    assert_eq!(
        retarget(&parts(&["out.d", "a", "f.flac"]), "m4a"),
        parts(&["out.d", "a", "f.m4a"])
    );
    assert_eq!(retarget(&parts(&[]), "m4a"), parts(&[]));
}

#[test]
fn video_extensions_in_any_case() {
    assert!(has_video_extension(&parts(&["a", "film.mkv"])));
    assert!(has_video_extension(&parts(&["film.MP4"])));
    assert!(has_video_extension(&parts(&["film.MoV"])));
    assert!(!has_video_extension(&parts(&["film.avi"])));
    assert!(!has_video_extension(&parts(&["mkv"])));
    assert!(!has_video_extension(&parts(&[])));
}

#[test]
fn decimal_numerals() {
    assert_eq!(decimal_string(0), "0");
    assert_eq!(decimal_string(7), "7");
    assert_eq!(decimal_string(10), "10");
    assert_eq!(decimal_string(120), "120");
    assert_eq!(decimal_string(u64::MAX), "18446744073709551615");
}

#[test]
fn two_digit_numerals() {
    let mut s = String::from("n=");
    append_decimal_two(&mut s, 3);
    assert_eq!(s, "n=03");
    let mut t = String::new();
    append_decimal_two(&mut t, 12);
    assert_eq!(t, "12");
    let mut u = String::new();
    append_decimal_two(&mut u, 123);
    assert_eq!(u, "123");
}
