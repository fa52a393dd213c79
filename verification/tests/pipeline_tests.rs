use libgather::add_libraries;
use libgather::check;
use libgather::header_line;
use libgather::plan_copies;
use libgather::plan_run;
use libgather::render_line;
use libgather::Excludes;
use libgather::ToCopySet;

fn strings(v: &[&str]) -> Vec<String> {
    v.iter().map(|s| s.to_string()).collect()
}

fn no_excludes() -> Excludes {
    Excludes::compile(&Vec::new()).unwrap()
}

#[test]
fn no_matches_prints_header_only() {
    let set = ToCopySet::new();
    let run = plan_run(&set, "/out", false);
    assert_eq!(run.lines, vec!["Copying files:".to_string()]);
    assert!(run.copies.is_empty());
}

#[test]
fn shared_dependency_listed_once() {
    let ex = no_excludes();
    let mut set = ToCopySet::new();
    // Two targets, both depending on libc.
    add_libraries(&mut set, &ex, &strings(&["/usr/lib/libc.so.6", "/usr/lib/libz.so.1"]));
    add_libraries(&mut set, &ex, &strings(&["/usr/lib/libc.so.6"]));
    assert_eq!(set.len(), 2);
    assert_eq!(set.get(0).as_str(), "/usr/lib/libc.so.6");
    assert_eq!(set.get(1).as_str(), "/usr/lib/libz.so.1");
    let run = plan_run(&set, "/out", true);
    let libc_lines = run
        .lines
        .iter()
        .filter(|l| l.contains("libc.so.6"))
        .count();
    assert_eq!(libc_lines, 1);
}

#[test]
fn excluded_path_left_out() {
    let ex = Excludes::compile(&strings(&["*/libexcluded*.so*"])).unwrap();
    assert!(!check(&ex, "/usr/lib/libexcluded.so.1"));
    assert!(check(&ex, "/usr/lib/libkeep.so.2"));
    let mut set = ToCopySet::new();
    add_libraries(
        &mut set,
        &ex,
        &strings(&["/usr/lib/libexcluded.so.1", "/usr/lib/libkeep.so.2"]),
    );
    assert_eq!(set.len(), 1);
    assert_eq!(set.get(0).as_str(), "/usr/lib/libkeep.so.2");
}

#[test]
fn multiple_excludes_all_apply() {
    let ex = Excludes::compile(&strings(&["*/liba*", "*/libb*"])).unwrap();
    assert!(!check(&ex, "/lib/liba.so"));
    assert!(!check(&ex, "/lib/libb.so"));
    assert!(check(&ex, "/lib/libc.so"));
}

#[test]
fn dry_run_and_real_run_print_the_same() {
    let ex = no_excludes();
    let mut set = ToCopySet::new();
    add_libraries(&mut set, &ex, &strings(&["/usr/lib/libz.so.1", "/usr/lib/liba.so"]));
    let dry = plan_run(&set, "/out", true);
    let real = plan_run(&set, "/out", false);
    assert_eq!(dry.lines, real.lines);
    assert!(dry.copies.is_empty());
    assert_eq!(real.copies.len(), 2);
}

#[test]
fn malformed_exclude_rejected_up_front() {
    let r = Excludes::compile(&strings(&["[abc"]));
    assert_eq!(r.err(), Some(0));
    let r = Excludes::compile(&strings(&["*ok*", "[abc"]));
    assert_eq!(r.err(), Some(1));
}

#[test]
fn same_base_name_last_writer_wins() {
    let ex = no_excludes();
    let mut set = ToCopySet::new();
    add_libraries(&mut set, &ex, &strings(&["/b/libdup.so", "/a/libdup.so"]));
    let plan = plan_copies(&set, "/out");
    assert_eq!(plan.len(), 2);
    // Both land on the same destination; the plan is in lexicographic
    // source order, so the copy performed last comes from /b.
    assert_eq!(plan[0].1, "/out/libdup.so");
    assert_eq!(plan[1].1, "/out/libdup.so");
    assert_eq!(plan[0].0, "/a/libdup.so");
    assert_eq!(plan[1].0, "/b/libdup.so");
}

#[test]
fn report_lines_quote_both_paths() {
    assert_eq!(header_line(), "Copying files:");
    assert_eq!(
        render_line("/usr/lib/libz.so.1", "/out/libz.so.1"),
        "  \"/usr/lib/libz.so.1\" to \"/out/libz.so.1\""
    );
}

#[test]
fn run_lines_follow_plan_order() {
    let ex = no_excludes();
    let mut set = ToCopySet::new();
    add_libraries(&mut set, &ex, &strings(&["/usr/lib/libz.so.1", "/usr/lib/liba.so"]));
    let run = plan_run(&set, "/out", false);
    assert_eq!(
        run.lines,
        vec![
            "Copying files:".to_string(),
            "  \"/usr/lib/liba.so\" to \"/out/liba.so\"".to_string(),
            "  \"/usr/lib/libz.so.1\" to \"/out/libz.so.1\"".to_string(),
        ]
    );
    assert_eq!(
        run.copies,
        vec![
            ("/usr/lib/liba.so".to_string(), "/out/liba.so".to_string()),
            ("/usr/lib/libz.so.1".to_string(), "/out/libz.so.1".to_string()),
        ]
    );
}

#[test]
fn path_without_base_name_not_planned() {
    let ex = no_excludes();
    let mut set = ToCopySet::new();
    add_libraries(&mut set, &ex, &strings(&["/usr/lib/", "/usr/lib/libz.so.1"]));
    assert_eq!(set.len(), 2);
    let plan = plan_copies(&set, "/out");
    assert_eq!(plan.len(), 1);
    assert_eq!(plan[0].0, "/usr/lib/libz.so.1");
}

#[test]
fn insert_keeps_lexicographic_order_and_dedups() {
    let mut set = ToCopySet::new();
    set.insert("/c".to_string());
    set.insert("/a".to_string());
    set.insert("/b".to_string());
    set.insert("/a".to_string());
    assert_eq!(set.len(), 3);
    assert_eq!(set.get(0).as_str(), "/a");
    assert_eq!(set.get(1).as_str(), "/b");
    assert_eq!(set.get(2).as_str(), "/c");
}

#[test]
fn bracket_pattern_matches_single_characters() {
    let ex = Excludes::compile(&strings(&["/lib/lib[ab].so"])).unwrap();
    assert!(!check(&ex, "/lib/liba.so"));
    assert!(!check(&ex, "/lib/libb.so"));
    assert!(check(&ex, "/lib/libc.so"));
}
