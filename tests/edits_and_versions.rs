use cargo_up::edits::Upgrader;
use cargo_up::preload::{find_package, is_wanted, normalize, Decl, DeclKind, Preloader};
use cargo_up::rules::RenameMap;
use cargo_up::versioning::{chars_eq, within_part_limit, PreIdent, SemVer};

fn chars(s: &str) -> Vec<char> {
    s.chars().collect()
}

fn text(v: &[char]) -> String {
    v.iter().collect()
}

#[test]
fn edits_apply_in_any_registration_order() {
    let src = chars("value.old_method(); p.x;");
    let a = (6usize, 16usize, chars("new_method"));
    let b = (22usize, 23usize, chars("horizontal"));

    let (u, ok_a) = Upgrader::new().replace(a.0, a.1, a.2.clone());
    let (u, ok_b) = u.replace(b.0, b.1, b.2.clone());
    assert!(ok_a && ok_b);
    let first = u.finish().apply(&src).unwrap();

    let (v, _) = Upgrader::new().replace(b.0, b.1, b.2.clone());
    let (v, _) = v.replace(a.0, a.1, a.2.clone());
    let second = v.finish().apply(&src).unwrap();

    assert_eq!(text(&first), "value.new_method(); p.horizontal;");
    assert_eq!(first, second);
}

#[test]
fn patch_matches_descending_application() {
    let src = "abcdefghij";
    let (u, _) = Upgrader::new().replace(7, 9, chars("XYZ"));
    let (u, _) = u.replace(1, 3, chars(""));
    let (u, _) = u.replace(4, 4, chars("--"));
    let patch = u.finish();
    let starts: Vec<usize> = patch.edits().iter().map(|e| e.start).collect();
    assert_eq!(starts, vec![1, 4, 7]);
    let mut manual = src.to_string();
    manual.replace_range(7..9, "XYZ");
    manual.replace_range(4..4, "--");
    manual.replace_range(1..3, "");
    assert_eq!(text(&patch.apply(&chars(src)).unwrap()), manual);
    assert_eq!(manual, "ad--efgXYZj");
}

#[test]
fn overlapping_edit_is_refused() {
    let (u, ok) = Upgrader::new().replace(2, 6, chars("A"));
    assert!(ok);
    let (u, ok) = u.replace(5, 8, chars("B"));
    assert!(!ok);
    let (u, ok) = u.replace(4, 3, chars("D"));
    assert!(!ok);
    assert_eq!(u.len(), 1);
    assert_eq!(text(&u.finish().apply(&chars("0123456789")).unwrap()), "01A6789");
}

#[test]
fn insertion_at_start_of_replacement_is_kept_in_either_order() {
    let src = chars("0123456789");
    let (u, ok1) = Upgrader::new().replace(2, 6, chars("A"));
    let (u, ok2) = u.replace(2, 2, chars("C"));
    assert!(ok1 && ok2);
    let first = u.finish().apply(&src).unwrap();
    let (v, ok3) = Upgrader::new().replace(2, 2, chars("C"));
    let (v, ok4) = v.replace(2, 6, chars("A"));
    assert!(ok3 && ok4);
    let second = v.finish().apply(&src).unwrap();
    assert_eq!(text(&first), "01CA6789");
    assert_eq!(first, second);
}

#[test]
fn two_insertions_at_one_place_are_refused() {
    let (u, ok) = Upgrader::new().replace(3, 3, chars("x"));
    assert!(ok);
    let (u, ok) = u.replace(3, 3, chars("y"));
    assert!(!ok);
    assert_eq!(u.len(), 1);
}

#[test]
fn part_limit_of_version_text() {
    assert!(within_part_limit("1.0.0-beta-1"));
    let parts: Vec<&str> = vec!["a"; 255];
    let at_limit = format!("1.0.0-{}", parts.join("-"));
    assert!(within_part_limit(&at_limit));
    let parts: Vec<&str> = vec!["a"; 256];
    let over = format!("1.0.0-{}", parts.join("-"));
    assert!(!within_part_limit(&over));
}

#[test]
fn patch_past_end_of_text_is_refused() {
    let (u, _) = Upgrader::new().replace(3, 12, chars("x"));
    assert!(u.finish().apply(&chars("short")).is_none());
}

#[test]
fn empty_patch_keeps_text() {
    let src = chars("unchanged");
    assert_eq!(Upgrader::new().finish().apply(&src).unwrap(), src);
}

#[test]
fn parse_reads_numbers_and_pre_release() {
    let v = SemVer::parse("3.0.0-beta.1").unwrap();
    assert_eq!((v.major, v.minor, v.patch), (3, 0, 0));
    assert_eq!(v.pre.len(), 2);
    assert!(matches!(&v.pre[0], PreIdent::Alpha(a) if text(a) == "beta"));
    assert!(matches!(v.pre[1], PreIdent::Numeric(1)));
    let w = SemVer::parse("12.4.7").unwrap();
    assert_eq!((w.major, w.minor, w.patch), (12, 4, 7));
    assert!(SemVer::parse("1.x").is_err());
}

#[test]
fn precedence_follows_semver() {
    let p = |s: &str| SemVer::parse(s).unwrap();
    assert!(p("0.9.0").is_before(&p("1.0.0")));
    assert!(!p("1.0.0").is_before(&p("1.0.0")));
    assert!(p("1.0.0-alpha").is_before(&p("1.0.0")));
    assert!(p("1.0.0-alpha").is_before(&p("1.0.0-alpha.1")));
    assert!(p("1.0.0-alpha.1").is_before(&p("1.0.0-alpha.beta")));
    assert!(p("1.0.0-beta.2").is_before(&p("1.0.0-beta.11")));
    assert!(p("1.0.0-rc.1").is_before(&p("1.0.0")));
    assert!(!p("2.0.0").is_before(&p("1.9.9")));
    assert!(p("1.2.3+build").same(&p("1.2.3")));
    assert!(!p("1.2.3-a").same(&p("1.2.3")));
}

#[test]
fn copy_keeps_version() {
    let v = SemVer::parse("1.2.3-x.7").unwrap();
    assert!(v.copy().same(&v));
}

#[test]
fn rename_map_later_entry_wins() {
    let mut m = RenameMap::new();
    m.insert("Widget", "a", "b");
    m.insert("Gadget", "a", "g");
    m.insert("Widget", "a", "c");
    assert_eq!(text(m.get(&chars("Widget"), &chars("a")).unwrap()), "c");
    assert_eq!(text(m.get(&chars("Gadget"), &chars("a")).unwrap()), "g");
    assert!(m.get(&chars("Widget"), &chars("b")).is_none());
    assert!(m.mentions(&chars("a")));
    assert!(!m.mentions(&chars("c")));
}

#[test]
fn normalize_replaces_dashes() {
    assert_eq!(text(&normalize(&chars("my-crate-name"))), "my_crate_name");
    assert_eq!(text(&normalize(&chars(""))), "");
}

#[test]
fn wanted_libraries() {
    let peers = vec![chars("clap_derive")];
    assert!(is_wanted(&chars("clap"), &chars("clap"), &peers));
    assert!(is_wanted(&chars("clap-derive"), &chars("clap"), &peers));
    assert!(!is_wanted(&chars("serde"), &chars("clap"), &peers));
}

#[test]
fn preloader_classifies_declarations() {
    let mut p = Preloader::new();
    p.load(&vec![
        Decl { id: 7, kind: DeclKind::Method, owner: chars("Widget") },
        Decl { id: 8, kind: DeclKind::Member, owner: chars("Point") },
        Decl { id: 7, kind: DeclKind::Variant, owner: chars("Shape") },
    ]);
    assert_eq!(text(p.owner(DeclKind::Method, 7).unwrap()), "Widget");
    assert_eq!(text(p.owner(DeclKind::Variant, 7).unwrap()), "Shape");
    assert_eq!(text(p.owner(DeclKind::Member, 8).unwrap()), "Point");
    assert!(p.owner(DeclKind::Member, 7).is_none());
    assert!(p.owner(DeclKind::Method, 8).is_none());
}

#[test]
fn chars_eq_compares_content() {
    assert!(chars_eq(&chars("abc"), &chars("abc")));
    assert!(!chars_eq(&chars("abc"), &chars("abd")));
    assert!(!chars_eq(&chars("ab"), &chars("abc")));
}

#[test]
fn package_found_by_normalized_name() {
    let names = vec![chars("serde"), chars("clap-derive"), chars("clap_derive")];
    assert_eq!(find_package(&names, &chars("clap_derive")), Some(1));
    assert_eq!(find_package(&names, &chars("clap-derive")), Some(1));
    assert_eq!(find_package(&names, &chars("serde-json")), None);
}
