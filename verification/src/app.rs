//! The rename engine: modes, their name-transformation rules, the hidden-file
//! filter, and the per-directory rename plan.

use crate::util::ext_of;
use crate::util::lemma_split_concat;
use crate::util::replace_all;
use crate::util::replace_seq;
use crate::util::split_filename;
use crate::util::stem_of;
use vstd::prelude::*;

verus! {

/// Where added text goes relative to the existing stem.
#[derive(Clone, Copy, PartialEq, Eq, Structural)]
pub enum Position {
    /// After the original stem.
    After,
    /// Before the original stem.
    Before,
}

/// The token a Format run would generate per entry.
#[derive(Clone, Copy, PartialEq, Eq, Structural)]
pub enum Format {
    /// An ordinal number.
    Index,
    /// The current date.
    Date,
    /// A counter value.
    Counter,
}

/// The name an Append run gives an entry: the text joins the stem on the
/// chosen side, and the extension is always kept.
pub open spec fn append_spec(name: Seq<char>, text: Seq<char>, position: Position) -> Seq<char> {
    match position {
        Position::After => stem_of(name) + text + ext_of(name),
        Position::Before => text + stem_of(name) + ext_of(name),
    }
}

/// Compute the Append-mode name: stem+text+ext after, text+stem+ext before.
pub fn append_new_name(file_name: &str, text: &str, position: Position) -> (r: String)
    ensures
        r@ == append_spec(file_name@, text@, position),
{
    let parts = split_filename(file_name);
    match position {
        Position::After => {
            let r = parts.0.concat(text).concat(parts.1.as_str());
            proof {
                assert(r@ =~= stem_of(file_name@) + text@ + ext_of(file_name@));
            }
            r
        },
        Position::Before => {
            let r = String::from_str(text).concat(parts.0.as_str()).concat(parts.1.as_str());
            proof {
                assert(r@ =~= text@ + stem_of(file_name@) + ext_of(file_name@));
            }
            r
        },
    }
}

/// The name a Replace run gives an entry. With `change_surfix` the whole
/// name is rewritten; without it only the stem is, and the extension is
/// reattached untouched.
pub open spec fn replace_name_spec(
    name: Seq<char>,
    find: Seq<char>,
    to: Seq<char>,
    change_surfix: bool,
) -> Seq<char> {
    if change_surfix {
        replace_seq(name, find, to)
    } else {
        replace_seq(stem_of(name), find, to) + ext_of(name)
    }
}

/// Compute the Replace-mode name: substitute `find` by `to`, over the whole
/// name when `change_surfix` holds, else over the stem only.
pub fn replace_new_name(file_name: &str, find: &str, to: &str, change_surfix: bool) -> (r: String)
    ensures
        r@ == replace_name_spec(file_name@, find@, to@, change_surfix),
{
    if change_surfix {
        replace_all(file_name, find, to)
    } else {
        let parts = split_filename(file_name);
        let replaced = replace_all(parts.0.as_str(), find, to);
        replaced.concat(parts.1.as_str())
    }
}

/// A hidden entry: its name begins with the '.' marker.
pub open spec fn is_hidden_name(name: Seq<char>) -> bool {
    name.len() > 0 && name[0] == '.'
}

/// Does the traversal rename this entry? Hidden entries are excluded exactly
/// when `skip_hidden` holds.
pub fn keep_entry(name: &str, skip_hidden: bool) -> (b: bool)
    ensures
        b == (!skip_hidden || !is_hidden_name(name@)),
{
    if !skip_hidden {
        true
    } else if name.unicode_len() == 0 {
        true
    } else {
        name.get_char(0) != '.'
    }
}

/// The name-transformation rule a traversal applies to every kept entry.
pub enum RenameRule {
    /// Add `text` on the `position` side of the stem; the extension stays.
    Append { text: String, position: Position },
    /// Substitute `find` by `to`; `change_surfix` lets the extension change.
    Replace { find: String, to: String, change_surfix: bool },
}

/// The name a rule gives an entry.
pub open spec fn apply_rule_spec(rule: RenameRule, name: Seq<char>) -> Seq<char> {
    match rule {
        RenameRule::Append { text, position } => append_spec(name, text@, position),
        RenameRule::Replace { find, to, change_surfix } => replace_name_spec(
            name,
            find@,
            to@,
            change_surfix,
        ),
    }
}

/// Compute the new name of one entry under a rule.
pub fn apply_rule(rule: &RenameRule, file_name: &str) -> (r: String)
    ensures
        r@ == apply_rule_spec(*rule, file_name@),
{
    match rule {
        RenameRule::Append { text, position } => append_new_name(file_name, text.as_str(), *position),
        RenameRule::Replace { find, to, change_surfix } => replace_new_name(
            file_name,
            find.as_str(),
            to.as_str(),
            *change_surfix,
        ),
    }
}

/// One rename of a directory entry: old leaf name to new leaf name, in place.
pub struct RenameOp {
    /// The entry's current name.
    pub from: String,
    /// The name it receives.
    pub to: String,
}

/// The (old, new) name pair an op stands for.
pub open spec fn op_names(op: RenameOp) -> (Seq<char>, Seq<char>) {
    (op.from@, op.to@)
}

/// After an op's rename is done, decide where the traversal descends: only
/// under a recursive plan, only when the renamed entry is a directory, and
/// then into the entry's new name — never its old one.
pub fn descend_target(op: &RenameOp, recursive: bool, is_directory: bool) -> (t: Option<String>)
    ensures
        match t {
            Some(name) => recursive && is_directory && name@ == op.to@,
            None => !(recursive && is_directory),
        },
{
    if recursive && is_directory {
        Some(op.to.clone())
    } else {
        None
    }
}

/// The renames one directory listing receives, in listing order: entries a
/// `skip_hidden` filter excludes are dropped, every other entry is paired
/// with the name the rule gives it.
pub open spec fn plan_spec(rule: RenameRule, names: Seq<Seq<char>>, skip_hidden: bool) -> Seq<
    (Seq<char>, Seq<char>),
>
    decreases names.len(),
{
    if names.len() == 0 {
        Seq::empty()
    } else {
        plan_spec(rule, names.drop_last(), skip_hidden) + (if !skip_hidden || !is_hidden_name(
            names.last(),
        ) {
            seq![(names.last(), apply_rule_spec(rule, names.last()))]
        } else {
            Seq::empty()
        })
    }
}

/// Plan one directory: filter the listed names, compute each new name, and
/// hand back the rename ops in listing order.
pub fn plan_renames(rule: &RenameRule, names: &Vec<String>, skip_hidden: bool) -> (ops: Vec<
    RenameOp,
>)
    ensures
        ops@.map_values(|op: RenameOp| op_names(op)) == plan_spec(
            *rule,
            names@.map_values(|n: String| n@),
            skip_hidden,
        ),
{
    let ghost vs = names@.map_values(|n: String| n@);
    let mut ops: Vec<RenameOp> = Vec::new();
    proof {
        assert(vs.take(0) =~= Seq::<Seq<char>>::empty());
        assert(ops@.map_values(|op: RenameOp| op_names(op)) =~= Seq::<
            (Seq<char>, Seq<char>),
        >::empty());
    }
    let mut i: usize = 0;
    while i < names.len()
        invariant
            i <= names.len(),
            vs == names@.map_values(|n: String| n@),
            vs.len() == names@.len(),
            ops@.map_values(|op: RenameOp| op_names(op)) == plan_spec(
                *rule,
                vs.take(i as int),
                skip_hidden,
            ),
        decreases names.len() - i,
    {
        let name = &names[i];
        let ghost ops_before = ops@;
        proof {
            assert(vs[i as int] == name@);
            assert(vs.take(i + 1).drop_last() =~= vs.take(i as int));
            assert(vs.take(i + 1).last() == vs[i as int]);
        }
        if keep_entry(name.as_str(), skip_hidden) {
            let to = apply_rule(rule, name.as_str());
            let from = name.clone();
            let op = RenameOp { from, to };
            ops.push(op);
            proof {
                assert(ops@.map_values(|op: RenameOp| op_names(op)) =~= ops_before.map_values(
                    |op: RenameOp| op_names(op),
                ).push(op_names(op)));
                assert(ops@.map_values(|op: RenameOp| op_names(op)) =~= plan_spec(
                    *rule,
                    vs.take(i + 1),
                    skip_hidden,
                ));
            }
        } else {
            proof {
                assert(ops@.map_values(|op: RenameOp| op_names(op)) =~= plan_spec(
                    *rule,
                    vs.take(i + 1),
                    skip_hidden,
                ));
            }
        }
        i += 1;
    }
    proof {
        assert(vs.take(names@.len() as int) =~= vs);
    }
    ops
}

/// The case convention a Case run would apply to stems.
#[derive(Clone, Copy, PartialEq, Eq, Structural)]
pub enum CaseConvertType {
    /// All upper case.
    Upper,
    /// All lower case.
    Lower,
    /// Snake case.
    Snake,
    /// Camel case.
    Caclmer,
}

/// Flags of Format mode, optional ones still unresolved.
pub struct FormatFlag {
    /// Which token to generate per entry.
    pub format: Format,
    /// Where the custom text goes.
    pub position: Position,
    /// The custom text.
    pub custom: String,
    /// First sequence number or date.
    pub start_number: Option<String>,
    /// Recurse into directories; unset means no.
    pub recursive: Option<bool>,
    /// Skip hidden entries; unset means yes.
    pub skip_dot: Option<bool>,
    /// Allow the extension to change; unset means no.
    pub surfix: Option<bool>,
    /// The paths to list; unset means the current directory.
    pub file: Option<Vec<String>>,
}

/// Flags of Append mode, optional ones still unresolved.
pub struct AppendFlag {
    /// The text to add.
    pub text: String,
    /// Which side of the stem; unset means after.
    pub position: Option<Position>,
    /// Recurse into directories; unset means no.
    pub recursive: Option<bool>,
    /// Skip hidden entries; unset means no, so they are renamed too.
    pub skip_dot: Option<bool>,
    /// The paths to list; unset means the current directory.
    pub file: Option<Vec<String>>,
}

/// Flags of Replace mode, optional ones still unresolved.
pub struct ReplaceFlag {
    /// The text to look for.
    pub find: String,
    /// What to put in its place.
    pub to: String,
    /// Recurse into directories; unset means no.
    pub recursive: Option<bool>,
    /// Skip hidden entries; unset means yes.
    pub skip_dot: Option<bool>,
    /// Allow the extension to change; unset means no.
    pub change_surfix: Option<bool>,
    /// The path to list; unset means the current directory.
    pub file: Option<String>,
}

/// Flags of Case mode.
pub struct CaseFlag {
    /// The chosen convention.
    pub case_type: CaseConvertType,
}

/// The chosen renaming mode with its flags.
pub enum RenameMode {
    /// Format filenames to a pattern; performs no action yet.
    Format(FormatFlag),
    /// Add text before or after the stem.
    Append(AppendFlag),
    /// Substitute text within names.
    Replace(ReplaceFlag),
    /// Convert stem casing; performs no action yet.
    Case(CaseFlag),
}

/// One invocation: a mode, or none for the default mode.
pub struct App {
    /// The mode the command line chose, if any.
    pub mode: Option<RenameMode>,
}

/// A fully resolved traversal: where to start, what rule to apply, whether to
/// recurse and whether to skip hidden entries.
pub struct TraversalPlan {
    /// The directories whose entries are renamed.
    pub paths: Vec<String>,
    /// The rule every kept entry receives.
    pub rule: RenameRule,
    /// Descend into each renamed entry that is a directory, at its new path.
    pub recursive: bool,
    /// Exclude entries whose name begins with '.'.
    pub skip_hidden: bool,
}

/// What an invocation does: nothing, or one traversal.
pub enum ModePlan {
    /// The mode performs no action.
    NoOp,
    /// The mode renames along this traversal.
    Traverse(TraversalPlan),
}

/// An optional flag, or its documented default.
pub open spec fn flag_or(flag: Option<bool>, default: bool) -> bool {
    match flag {
        Some(b) => b,
        None => default,
    }
}

/// An optional position; unset means after the stem.
pub open spec fn position_or_after(position: Option<Position>) -> Position {
    match position {
        Some(p) => p,
        None => Position::After,
    }
}

/// The plan an Append invocation resolves to: text and position as given,
/// no recursion unless asked, hidden entries renamed too unless `skip_dot`
/// excludes them, the current directory unless paths are given.
pub open spec fn is_append_plan(flag: AppendFlag, p: TraversalPlan) -> bool {
    &&& p.rule == (RenameRule::Append {
        text: flag.text,
        position: position_or_after(flag.position),
    })
    &&& p.recursive == flag_or(flag.recursive, false)
    &&& p.skip_hidden == flag_or(flag.skip_dot, false)
    &&& match flag.file {
        Some(files) => p.paths == files,
        None => p.paths@.len() == 1 && p.paths@[0]@ == "."@,
    }
}

/// The plan a Replace invocation resolves to: find and to as given, no
/// recursion unless asked, hidden entries skipped unless `skip_dot` is
/// cleared, the extension kept unless `change_surfix` frees it, the current
/// directory unless a path is given.
pub open spec fn is_replace_plan(flag: ReplaceFlag, p: TraversalPlan) -> bool {
    &&& p.rule == (RenameRule::Replace {
        find: flag.find,
        to: flag.to,
        change_surfix: flag_or(flag.change_surfix, false),
    })
    &&& p.recursive == flag_or(flag.recursive, false)
    &&& p.skip_hidden == flag_or(flag.skip_dot, true)
    &&& match flag.file {
        Some(f) => p.paths@.len() == 1 && p.paths@[0] == f,
        None => p.paths@.len() == 1 && p.paths@[0]@ == "."@,
    }
}

impl App {
    /// Resolve Format mode; it is a placeholder and performs no action.
    pub fn format_mode(_flag: &FormatFlag) -> (p: ModePlan)
        ensures
            p == ModePlan::NoOp,
    {
        ModePlan::NoOp
    }

    /// Resolve the defaults of an Append invocation into a traversal plan.
    pub fn append_mode(flag: AppendFlag) -> (p: TraversalPlan)
        ensures
            is_append_plan(flag, p),
    {
        let position = match flag.position {
            Some(p) => p,
            None => Position::After,
        };
        let recursive = match flag.recursive {
            Some(b) => b,
            None => false,
        };
        let skip_hidden = match flag.skip_dot {
            Some(b) => b,
            None => false,
        };
        let paths = match flag.file {
            Some(files) => files,
            None => {
                let mut v: Vec<String> = Vec::new();
                v.push(String::from_str("."));
                v
            },
        };
        TraversalPlan {
            paths,
            rule: RenameRule::Append { text: flag.text, position },
            recursive,
            skip_hidden,
        }
    }

    /// Resolve the defaults of a Replace invocation into a traversal plan.
    pub fn replace_mode(flag: ReplaceFlag) -> (p: TraversalPlan)
        ensures
            is_replace_plan(flag, p),
    {
        let recursive = match flag.recursive {
            Some(b) => b,
            None => false,
        };
        let skip_hidden = match flag.skip_dot {
            Some(b) => b,
            None => true,
        };
        let change_surfix = match flag.change_surfix {
            Some(b) => b,
            None => false,
        };
        let path = match flag.file {
            Some(f) => f,
            None => String::from_str("."),
        };
        let mut paths: Vec<String> = Vec::new();
        paths.push(path);
        TraversalPlan {
            paths,
            rule: RenameRule::Replace { find: flag.find, to: flag.to, change_surfix },
            recursive,
            skip_hidden,
        }
    }

    /// Resolve Case mode; it is a placeholder and performs no action.
    pub fn case_convert_mode(_flag: &CaseFlag) -> (p: ModePlan)
        ensures
            p == ModePlan::NoOp,
    {
        ModePlan::NoOp
    }

    /// Resolve the default mode; it is a placeholder and performs no action.
    pub fn default_mode() -> (p: ModePlan)
        ensures
            p == ModePlan::NoOp,
    {
        ModePlan::NoOp
    }

    /// Resolve the invocation into what it does: Append and Replace traverse
    /// with their resolved defaults, every other mode performs no action.
    pub fn plan(self) -> (p: ModePlan)
        ensures
            match self.mode {
                None => p == ModePlan::NoOp,
                Some(RenameMode::Format(_)) => p == ModePlan::NoOp,
                Some(RenameMode::Case(_)) => p == ModePlan::NoOp,
                Some(RenameMode::Append(f)) => (p matches ModePlan::Traverse(t) && is_append_plan(
                    f,
                    t,
                )),
                Some(RenameMode::Replace(f)) => (p matches ModePlan::Traverse(t) && is_replace_plan(
                    f,
                    t,
                )),
            },
    {
        match self.mode {
            None => App::default_mode(),
            Some(RenameMode::Format(flag)) => App::format_mode(&flag),
            Some(RenameMode::Case(flag)) => App::case_convert_mode(&flag),
            Some(RenameMode::Append(flag)) => ModePlan::Traverse(App::append_mode(flag)),
            Some(RenameMode::Replace(flag)) => ModePlan::Traverse(App::replace_mode(flag)),
        }
    }
}

/// The listed names that are not hidden, in listing order.
pub open spec fn visible_names(names: Seq<Seq<char>>) -> Seq<Seq<char>> {
    names.filter(|n: Seq<char>| !is_hidden_name(n))
}

/// What the hidden-file filter does to a plan. Skipping plans no hidden name,
/// and is the same as dropping the hidden names first and planning the rest;
/// not skipping plans every listed entry, in listing order, with the name the
/// rule gives it.
pub proof fn lemma_plan_hidden_filter(rule: RenameRule, names: Seq<Seq<char>>)
    ensures
        forall|k: int|
            0 <= k < plan_spec(rule, names, true).len() ==> !is_hidden_name(
                #[trigger] plan_spec(rule, names, true)[k].0,
            ),
        plan_spec(rule, names, true) == plan_spec(rule, visible_names(names), false),
        plan_spec(rule, names, false).len() == names.len(),
        forall|k: int|
            0 <= k < names.len() ==> #[trigger] plan_spec(rule, names, false)[k] == (
            names[k],
            apply_rule_spec(rule, names[k]),
            ),
    decreases names.len(),
{
    reveal(Seq::filter);
    if names.len() == 0 {
        assert(visible_names(names) =~= Seq::<Seq<char>>::empty());
    } else {
        let dl = names.drop_last();
        lemma_plan_hidden_filter(rule, dl);
        assert forall|k: int| 0 <= k < names.len() implies #[trigger] plan_spec(
            rule,
            names,
            false,
        )[k] == (names[k], apply_rule_spec(rule, names[k])) by {
            if k < names.len() - 1 {
                assert(dl[k] == names[k]);
                assert(plan_spec(rule, names, false)[k] == plan_spec(rule, dl, false)[k]);
            }
        }
        if !is_hidden_name(names.last()) {
            assert(visible_names(names) == visible_names(dl).push(names.last()));
            assert(visible_names(dl).push(names.last()).drop_last() =~= visible_names(dl));
            assert(visible_names(dl).push(names.last()).last() == names.last());
        } else {
            assert(visible_names(names) == visible_names(dl));
        }
    }
}

/// Appending nonempty text is never idempotent: a second Append grows the
/// name further, so it never hands back the once-appended name.
pub proof fn lemma_append_not_idempotent(name: Seq<char>, text: Seq<char>, position: Position)
    requires
        text.len() > 0,
    ensures
        append_spec(append_spec(name, text, position), text, position) != append_spec(
            name,
            text,
            position,
        ),
        append_spec(append_spec(name, text, position), text, position).len() > append_spec(
            name,
            text,
            position,
        ).len(),
{
    let once = append_spec(name, text, position);
    lemma_split_concat(name);
    lemma_split_concat(once);
    assert(once.len() == name.len() + text.len());
    assert(append_spec(once, text, position).len() == once.len() + text.len());
}

} // verus!
