use finder_rename::app::App;
use finder_rename::app::AppendFlag;
use finder_rename::app::CaseConvertType;
use finder_rename::app::CaseFlag;
use finder_rename::app::Format;
use finder_rename::app::FormatFlag;
use finder_rename::app::ModePlan;
use finder_rename::app::Position;
use finder_rename::app::RenameMode;
use finder_rename::app::RenameRule;
use finder_rename::app::ReplaceFlag;
use finder_rename::app::append_new_name;
use finder_rename::app::apply_rule;
use finder_rename::app::keep_entry;
use finder_rename::app::plan_renames;
use finder_rename::app::replace_new_name;
use finder_rename::util::new_counter;
use finder_rename::util::replace_all;
use finder_rename::util::split_filename;

#[test]
fn split_plain_extension() {
    let (stem, ext) = split_filename("a.txt");
    assert_eq!(stem, "a");
    assert_eq!(ext, ".txt");
}

#[test]
fn split_dotfile_is_all_stem() {
    let (stem, ext) = split_filename(".hidden");
    assert_eq!(stem, ".hidden");
    assert_eq!(ext, "");
}

#[test]
fn split_without_separator() {
    let (stem, ext) = split_filename("noext");
    assert_eq!(stem, "noext");
    assert_eq!(ext, "");
}

#[test]
fn split_at_last_separator() {
    let (stem, ext) = split_filename("a.b.c");
    assert_eq!(stem, "a.b");
    assert_eq!(ext, ".c");
}

#[test]
fn split_empty_name() {
    let (stem, ext) = split_filename("");
    assert_eq!(stem, "");
    assert_eq!(ext, "");
}

#[test]
fn split_trailing_separator() {
    let (stem, ext) = split_filename("name.");
    assert_eq!(stem, "name");
    assert_eq!(ext, ".");
}

#[test]
fn append_after_keeps_extension() {
    let name = append_new_name("doc.pdf", "_v2", Position::After);
    assert_eq!(name, "doc_v2.pdf");
}

#[test]
fn append_before_keeps_extension() {
    let name = append_new_name("doc.pdf", "_v2", Position::Before);
    assert_eq!(name, "_v2doc.pdf");
}

#[test]
fn append_twice_is_not_idempotent() {
    let once = append_new_name("doc.pdf", "_v2", Position::After);
    let twice = append_new_name(&once, "_v2", Position::After);
    assert_ne!(twice, once);
    assert!(twice.len() > once.len());
    assert_eq!(twice, "doc_v2_v2.pdf");
}

#[test]
fn replace_stem_only_by_default() {
    let name = replace_new_name("my file.txt", " ", "_", false);
    assert_eq!(name, "my_file.txt");
}

#[test]
fn replace_stem_only_with_space_in_extension() {
    // "a b.c d" splits at the last '.', so the extension ".c d" keeps its
    // space while the stem's is replaced.
    let name = replace_new_name("a b.c d", " ", "_", false);
    assert_eq!(name, "a_b.c d");
}

#[test]
fn replace_whole_name_when_surfix_may_change() {
    let name = replace_new_name("a.b.txt", ".", "_", true);
    assert_eq!(name, "a_b_txt");
}

#[test]
fn replace_all_replaces_every_occurrence() {
    assert_eq!(replace_all("one two three", " ", "_"), "one_two_three");
    assert_eq!(replace_all("aaa", "aa", "b"), "ba");
    assert_eq!(replace_all("banana", "an", ""), "ba");
}

#[test]
fn replace_all_agrees_with_std_replace() {
    let cases = [
        ("my file.txt", " ", "_"),
        ("a.b.c", ".", "_"),
        ("aaa", "aa", "b"),
        ("", "x", "y"),
        ("abc", "", "-"),
        ("", "", "-"),
        ("mississippi", "ss", "s"),
    ];
    for (s, find, to) in cases {
        assert_eq!(replace_all(s, find, to), s.replace(find, to));
    }
}

#[test]
fn hidden_entry_is_skipped_only_on_request() {
    assert!(!keep_entry(".gitkeep", true));
    assert!(keep_entry(".gitkeep", false));
    assert!(keep_entry("visible.txt", true));
    assert!(keep_entry("", true));
}

#[test]
fn counter_counts_up_from_start() {
    let mut counter = new_counter(5);
    assert_eq!(counter.next(), 5);
    assert_eq!(counter.next(), 6);
    assert_eq!(counter.next(), 7);
}

#[test]
fn counter_reaches_the_largest_value() {
    let mut counter = new_counter(i32::MAX);
    assert_eq!(counter.next(), i32::MAX);
}

#[test]
fn counter_starts_at_the_smallest_value() {
    let mut counter = new_counter(i32::MIN);
    assert_eq!(counter.next(), i32::MIN);
    assert_eq!(counter.next(), i32::MIN + 1);
}

#[test]
fn plan_filters_hidden_and_renames_the_rest() {
    let rule = RenameRule::Append {
        text: String::from("_x"),
        position: Position::After,
    };
    let names = vec![
        String::from("a.txt"),
        String::from(".git"),
        String::from("b"),
    ];
    let ops = plan_renames(&rule, &names, true);
    assert_eq!(ops.len(), 2);
    assert_eq!(ops[0].from, "a.txt");
    assert_eq!(ops[0].to, "a_x.txt");
    assert_eq!(ops[1].from, "b");
    assert_eq!(ops[1].to, "b_x");
}

#[test]
fn plan_keeps_hidden_when_not_skipping() {
    let rule = RenameRule::Replace {
        find: String::from("i"),
        to: String::from("y"),
        change_surfix: false,
    };
    let names = vec![String::from(".git"), String::from("list.txt")];
    let ops = plan_renames(&rule, &names, false);
    assert_eq!(ops.len(), 2);
    // A dotfile is all stem, so even the stem-only replacement reaches it.
    assert_eq!(ops[0].from, ".git");
    assert_eq!(ops[0].to, ".gyt");
    assert_eq!(ops[1].from, "list.txt");
    assert_eq!(ops[1].to, "lyst.txt");
}

#[test]
fn plan_with_skip_equals_planning_the_visible() {
    let rule = RenameRule::Append {
        text: String::from("_x"),
        position: Position::After,
    };
    let names = vec![
        String::from(".a"),
        String::from("b.txt"),
        String::from(".c"),
        String::from("d"),
    ];
    let visible = vec![String::from("b.txt"), String::from("d")];
    let skipped = plan_renames(&rule, &names, true);
    let planned = plan_renames(&rule, &visible, false);
    assert_eq!(skipped.len(), planned.len());
    for (a, b) in skipped.iter().zip(planned.iter()) {
        assert_eq!(a.from, b.from);
        assert_eq!(a.to, b.to);
    }
}

#[test]
fn descend_only_into_renamed_directories() {
    let op = finder_rename::app::RenameOp {
        from: String::from("sub"),
        to: String::from("sub_x"),
    };
    // A recursive run descends into the renamed directory, under its new name.
    assert_eq!(
        finder_rename::app::descend_target(&op, true, true),
        Some(String::from("sub_x"))
    );
    // A plain file, or a non-recursive run, ends the descent.
    assert_eq!(finder_rename::app::descend_target(&op, true, false), None);
    assert_eq!(finder_rename::app::descend_target(&op, false, true), None);
    assert_eq!(finder_rename::app::descend_target(&op, false, false), None);
}

#[test]
fn apply_rule_matches_the_mode_functions() {
    let append = RenameRule::Append {
        text: String::from("-old"),
        position: Position::Before,
    };
    assert_eq!(apply_rule(&append, "notes.md"), "-oldnotes.md");
    let replace = RenameRule::Replace {
        find: String::from("o"),
        to: String::from("0"),
        change_surfix: true,
    };
    assert_eq!(apply_rule(&replace, "foo.mov"), "f00.m0v");
}

#[test]
fn append_mode_defaults() {
    let flag = AppendFlag {
        text: String::from("_v2"),
        position: None,
        recursive: None,
        skip_dot: None,
        file: None,
    };
    let plan = App::append_mode(flag);
    assert!(matches!(
        plan.rule,
        RenameRule::Append { position: Position::After, .. }
    ));
    assert!(!plan.recursive);
    // Hidden entries are renamed too unless skip_dot excludes them.
    assert!(!plan.skip_hidden);
    assert_eq!(plan.paths, vec![String::from(".")]);
}

#[test]
fn append_mode_skips_hidden_when_asked() {
    let flag = AppendFlag {
        text: String::from("x"),
        position: Some(Position::Before),
        recursive: Some(true),
        skip_dot: Some(true),
        file: Some(vec![String::from("photos"), String::from("docs")]),
    };
    let plan = App::append_mode(flag);
    assert!(matches!(
        plan.rule,
        RenameRule::Append { position: Position::Before, .. }
    ));
    assert!(plan.recursive);
    assert!(plan.skip_hidden);
    assert_eq!(plan.paths, vec![String::from("photos"), String::from("docs")]);
}

#[test]
fn replace_mode_defaults() {
    let flag = ReplaceFlag {
        find: String::from(" "),
        to: String::from(""),
        recursive: None,
        skip_dot: None,
        change_surfix: None,
        file: None,
    };
    let plan = App::replace_mode(flag);
    match &plan.rule {
        RenameRule::Replace { find, to, change_surfix } => {
            assert_eq!(find.as_str(), " ");
            assert_eq!(to.as_str(), "");
            assert!(!*change_surfix);
        }
        _ => panic!("replace flags must resolve to a replace rule"),
    }
    assert!(!plan.recursive);
    assert!(plan.skip_hidden);
    assert_eq!(plan.paths, vec![String::from(".")]);
}

#[test]
fn plan_dispatches_per_mode() {
    let no_mode = App { mode: None };
    assert!(matches!(no_mode.plan(), ModePlan::NoOp));

    let format = App {
        mode: Some(RenameMode::Format(FormatFlag {
            format: Format::Index,
            position: Position::After,
            custom: String::from("img"),
            start_number: None,
            recursive: None,
            skip_dot: None,
            surfix: None,
            file: None,
        })),
    };
    assert!(matches!(format.plan(), ModePlan::NoOp));

    let case = App {
        mode: Some(RenameMode::Case(CaseFlag { case_type: CaseConvertType::Upper })),
    };
    assert!(matches!(case.plan(), ModePlan::NoOp));

    let append = App {
        mode: Some(RenameMode::Append(AppendFlag {
            text: String::from("_a"),
            position: None,
            recursive: None,
            skip_dot: None,
            file: None,
        })),
    };
    match append.plan() {
        ModePlan::Traverse(plan) => {
            assert!(matches!(plan.rule, RenameRule::Append { .. }));
        }
        ModePlan::NoOp => panic!("append must traverse"),
    }

    let replace = App {
        mode: Some(RenameMode::Replace(ReplaceFlag {
            find: String::from(" "),
            to: String::from("_"),
            recursive: None,
            skip_dot: None,
            change_surfix: None,
            file: None,
        })),
    };
    match replace.plan() {
        ModePlan::Traverse(plan) => {
            assert!(matches!(plan.rule, RenameRule::Replace { .. }));
        }
        ModePlan::NoOp => panic!("replace must traverse"),
    }
}
