use ycd_animation_extractor::clip_index::ClipIndex;
use ycd_animation_extractor::name_set::{chars_less, NameSet};
use ycd_animation_extractor::short_name::dict_name_from_stem;
use ycd_animation_extractor::{dict_name_from_path, to_short_name};

fn chars(s: &str) -> Vec<char> {
    s.chars().collect()
}

#[test]
fn short_name_strips_directory_and_extension() {
    assert_eq!(to_short_name(Some("Anims\\Walk_01.Clip")), Some("walk_01".to_string()));
    assert_eq!(to_short_name(Some("pack/dir/Run.anim.clip")), Some("run".to_string()));
    assert_eq!(to_short_name(Some("SIT")), Some("sit".to_string()));
    assert_eq!(to_short_name(None), None);
}

#[test]
fn short_name_edge_cases() {
    assert_eq!(to_short_name(Some("")), Some(String::new()));
    // A trailing separator keeps the whole (unified) name.
    assert_eq!(to_short_name(Some("a\\b\\")), Some("a/b/".to_string()));
    assert_eq!(to_short_name(Some("a/b.c/")), Some("a/b".to_string()));
    // A leading dot is kept.
    assert_eq!(to_short_name(Some(".Hidden")), Some(".hidden".to_string()));
    assert_eq!(to_short_name(Some("x/.Hidden.clip")), Some(".hidden.clip".to_string()));
    assert_eq!(to_short_name(Some("Ünïcode.x")), Some("ünïcode".to_string()));
}

#[test]
fn dict_names() {
    assert_eq!(dict_name_from_path("/mods/anims/Move_Ped.ycd"), "move_ped");
    assert_eq!(dict_name_from_path("A.B.ycd"), "a.b");
    assert_eq!(dict_name_from_path("/"), "");
    assert_eq!(dict_name_from_path(""), "");
}

#[test]
fn order_is_by_code_point_with_prefixes_first() {
    assert!(chars_less(&chars("a"), &chars("b")));
    assert!(chars_less(&chars("ab"), &chars("abc")));
    assert!(!chars_less(&chars("abc"), &chars("ab")));
    assert!(!chars_less(&chars("x"), &chars("x")));
    assert!(chars_less(&chars("Z"), &chars("a")));
    assert!(chars_less(&chars("z"), &chars("é")));
    assert!(chars_less(&chars(""), &chars("a")));
}

#[test]
fn name_set_sorts_and_drops_repeats() {
    let mut s = NameSet::new();
    for n in ["walk", "idle", "run", "idle", "a", "walk"] {
        s.insert(chars(n));
    }
    assert_eq!(s.len(), 4);
    assert_eq!(s.to_strings(), vec!["a", "idle", "run", "walk"]);
    let mut sorted: Vec<String> = ["walk", "idle", "run", "a"].iter().map(|x| x.to_string()).collect();
    sorted.sort();
    assert_eq!(s.to_strings(), sorted);
}

#[test]
fn clip_index_merges_files_of_one_dictionary() {
    let mut idx = ClipIndex::new();
    idx.add("walk", &vec!["b".to_string(), "a".to_string()]);
    idx.add("idle", &vec![]);
    idx.add("walk", &vec!["c".to_string(), "a".to_string()]);
    let listing = idx.to_listing();
    assert_eq!(
        listing,
        vec![
            ("idle".to_string(), vec![]),
            (
                "walk".to_string(),
                vec!["a".to_string(), "b".to_string(), "c".to_string()]
            ),
        ]
    );
}

#[test]
fn dict_names_from_stems() {
    assert_eq!(dict_name_from_stem(Some("Move_PED")), "move_ped");
    assert_eq!(dict_name_from_stem(None), "");
}

#[test]
fn short_names_of_ascii_text_are_settled() {
    for name in ["Anims\\Walk_01.Clip", "pack/dir/Run.anim.clip", ".Hidden", "x/.A.b", "PLAIN", ""] {
        let once = to_short_name(Some(name)).unwrap();
        assert!(!once.contains('\\'));
        assert_eq!(once, once.to_lowercase());
        assert_eq!(to_short_name(Some(once.as_str())), Some(once.clone()));
    }
    // A trailing separator keeps a directory part that a second pass cuts.
    let once = to_short_name(Some("a/b.c/")).unwrap();
    assert_eq!(to_short_name(Some(once.as_str())), Some("b".to_string()));
}
