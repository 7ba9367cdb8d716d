//! Operations to steps. Each source says how its own operations are carried
//! out; this module orders those steps so that one helper run covers as many
//! of them as possible, and joins consecutive package-manager calls into one
//! (`pacman -S a`, `pacman -S b` becomes `pacman -S a b`).
//!
//! The order is refresh steps, then root steps grouped by source, then
//! session steps. Within a source the order the source gave is kept. A source
//! whose steps must alternate (a build as the user, then an install as root)
//! is not split across lanes: its steps stay together with the session steps.

use vstd::prelude::*;
use crate::text;
use crate::allow::dash;
use crate::model::{self, Command, Op, Plan, SourceKind, Step, Update, Error, strings_view};

verus! {

/// The sentence the Updates page shows beside a partial pacman update.
pub const PARTIAL_UPGRADE_NOTICE: &'static str = "Arch does not support partial upgrades. Updating only some packages can break others; Update all is the safe choice.";

pub open spec fn partial_upgrade_notice() -> Seq<char> {
    "Arch does not support partial upgrades. Updating only some packages can break others; Update all is the safe choice."@
}

// ---------------------------------------------------------------------------
// The batch table
// ---------------------------------------------------------------------------

/// One batchable shape: `program verb` where the arguments after the verb
/// are options, then `head_positionals` fixed arguments, then package names.
#[derive(Clone, Copy, Debug, PartialEq, Eq)]
pub struct BatchRule {
    pub program: &'static str,
    pub verb: &'static str,
    /// Positional arguments that are part of the head rather than names:
    /// the remote in `flatpak install flathub a b`.
    pub head_positionals: usize,
}

/// Every command shape the planner may batch, as program, verb and fixed
/// positionals.
pub open spec fn rules() -> Seq<(Seq<char>, Seq<char>, nat)> {
    seq![
        ("pacman"@, "-S"@, 0nat),
        ("pacman"@, "-Sy"@, 0nat),
        ("pacman"@, "-Syu"@, 0nat),
        ("pacman"@, "-R"@, 0nat),
        ("pacman"@, "-Rs"@, 0nat),
        ("pacman"@, "-Rns"@, 0nat),
        ("apt-get"@, "install"@, 0nat),
        ("apt-get"@, "remove"@, 0nat),
        ("dnf"@, "install"@, 0nat),
        ("dnf"@, "remove"@, 0nat),
        ("snap"@, "install"@, 0nat),
        ("snap"@, "remove"@, 0nat),
        ("flatpak"@, "install"@, 1nat),
        ("flatpak"@, "uninstall"@, 0nat),
        ("flatpak"@, "update"@, 0nat),
    ]
}

pub open spec fn rule_view(r: BatchRule) -> (Seq<char>, Seq<char>, nat) {
    (r.program@, r.verb@, r.head_positionals as nat)
}

/// The table of batchable shapes; a program not in it is never joined with
/// another step, whatever its arguments.
pub fn batchable() -> (r: Vec<BatchRule>)
    ensures
        r@.map_values(|x: BatchRule| rule_view(x)) == rules(),
{
    let r = vec![
        BatchRule { program: "pacman", verb: "-S", head_positionals: 0 },
        BatchRule { program: "pacman", verb: "-Sy", head_positionals: 0 },
        BatchRule { program: "pacman", verb: "-Syu", head_positionals: 0 },
        BatchRule { program: "pacman", verb: "-R", head_positionals: 0 },
        BatchRule { program: "pacman", verb: "-Rs", head_positionals: 0 },
        BatchRule { program: "pacman", verb: "-Rns", head_positionals: 0 },
        BatchRule { program: "apt-get", verb: "install", head_positionals: 0 },
        BatchRule { program: "apt-get", verb: "remove", head_positionals: 0 },
        BatchRule { program: "dnf", verb: "install", head_positionals: 0 },
        BatchRule { program: "dnf", verb: "remove", head_positionals: 0 },
        BatchRule { program: "snap", verb: "install", head_positionals: 0 },
        BatchRule { program: "snap", verb: "remove", head_positionals: 0 },
        BatchRule { program: "flatpak", verb: "install", head_positionals: 1 },
        BatchRule { program: "flatpak", verb: "uninstall", head_positionals: 0 },
        BatchRule { program: "flatpak", verb: "update", head_positionals: 0 },
    ];
    assert(r@.map_values(|x: BatchRule| rule_view(x)) =~= rules());
    r
}

/// The fixed positionals of the first rule for this program and verb.
pub open spec fn rule_for(program: Seq<char>, verb: Seq<char>) -> Option<nat> {
    rule_in(rules(), program, verb)
}

pub open spec fn rule_in(table: Seq<(Seq<char>, Seq<char>, nat)>, program: Seq<char>, verb: Seq<
    char,
>) -> Option<nat>
    decreases table.len(),
{
    if table.len() == 0 {
        None
    } else if table[0].0 == program && table[0].1 == verb {
        Some(table[0].2)
    } else {
        rule_in(table.drop_first(), program, verb)
    }
}

fn find_rule(table: &Vec<BatchRule>, program: &[char], verb: &[char]) -> (r: Option<usize>)
    requires
        table@.map_values(|x: BatchRule| rule_view(x)) == rules(),
    ensures
        match r {
            Some(h) => rule_for(program@, verb@) == Some(h as nat),
            None => rule_for(program@, verb@) is None,
        },
{
    let ghost t = rules();
    let mut i: usize = 0;
    assert(t.skip(0) =~= t);
    while i < table.len()
        invariant
            table@.map_values(|x: BatchRule| rule_view(x)) == t,
            t == rules(),
            i <= table@.len(),
            rule_for(program@, verb@) == rule_in(t.skip(i as int), program@, verb@),
        decreases table@.len() - i,
    {
        let r = table[i];
        assert(t.skip(i as int)[0] == rule_view(r));
        if text::eq_str(program, r.program) && text::eq_str(verb, r.verb) {
            return Some(r.head_positionals);
        }
        assert(t.skip(i as int).drop_first() =~= t.skip(i + 1));
        i = i + 1;
    }
    None
}

// ---------------------------------------------------------------------------
// Batch keys
// ---------------------------------------------------------------------------

/// A command split into the part that must match for batching and the
/// names that are joined.
#[derive(Clone, Debug, PartialEq, Eq)]
pub struct BatchKey {
    pub program: String,
    pub head: Vec<String>,
    pub names: Vec<String>,
}

/// Where the reading of a command's arguments stands.
pub struct KeyState {
    pub found: bool,
    pub fixed_left: nat,
    pub head: Seq<Seq<char>>,
    pub names: Seq<Seq<char>>,
}

/// One argument more. Before the verb, options are part of the head (not
/// for pacman, whose operation comes first); the verb must be in the
/// table. After it, an option is part of the head unless a name came
/// before it, which leaves the command alone; then come the fixed
/// positionals, then names.
pub open spec fn key_step(program: Seq<char>, st: Option<KeyState>, arg: Seq<char>) -> Option<
    KeyState,
> {
    match st {
        None => None,
        Some(s) => {
            if !s.found {
                if dash(arg) && program != "pacman"@ {
                    Some(KeyState { head: s.head.push(arg), ..s })
                } else {
                    match rule_for(program, arg) {
                        None => None,
                        Some(h) => Some(
                            KeyState { found: true, fixed_left: h, head: s.head.push(arg), ..s },
                        ),
                    }
                }
            } else if dash(arg) {
                if s.names.len() > 0 {
                    None
                } else {
                    Some(KeyState { head: s.head.push(arg), ..s })
                }
            } else if s.fixed_left > 0 {
                Some(
                    KeyState {
                        fixed_left: (s.fixed_left - 1) as nat,
                        head: s.head.push(arg),
                        ..s
                    },
                )
            } else {
                Some(KeyState { names: s.names.push(arg), ..s })
            }
        },
    }
}

pub open spec fn key_fold(program: Seq<char>, args: Seq<Seq<char>>) -> Option<KeyState>
    decreases args.len(),
{
    if args.len() == 0 {
        Some(KeyState { found: false, fixed_left: 0, head: Seq::empty(), names: Seq::empty() })
    } else {
        key_step(program, key_fold(program, args.drop_last()), args.last())
    }
}

/// Once the reading has given up, it stays given up.
proof fn lemma_key_fold_stays_none(program: Seq<char>, args: Seq<Seq<char>>, k: int)
    requires
        0 <= k <= args.len(),
        key_fold(program, args.take(k)) is None,
    ensures
        key_fold(program, args) is None,
    decreases args.len() - k,
{
    if k == args.len() {
        assert(args.take(k) =~= args);
    } else {
        assert(args.take(k + 1).drop_last() =~= args.take(k));
        lemma_key_fold_stays_none(program, args, k + 1);
    }
}

/// How a command would batch: its head and its names, or `None` when it is
/// not a batchable shape.
pub open spec fn batch_key_spec(program: Seq<char>, args: Seq<Seq<char>>) -> Option<
    (Seq<Seq<char>>, Seq<Seq<char>>),
> {
    match key_fold(program, args) {
        None => None,
        Some(s) => if !s.found || s.fixed_left > 0 {
            None
        } else {
            Some((s.head, s.names))
        },
    }
}

pub open spec fn key_matches(k: BatchKey, c: Command) -> bool {
    &&& k.program@ == c.program@
    &&& batch_key_spec(c.program@, strings_view(c.args@)) == Some(
        (strings_view(k.head@), strings_view(k.names@)),
    )
}

/// How `command` would batch, or `None` when it is not a batchable shape.
pub fn batch_key(command: &Command) -> (r: Option<BatchKey>)
    ensures
        match r {
            Some(k) => key_matches(k, *command),
            None => batch_key_spec(command.program@, strings_view(command.args@)) is None,
        },
{
    let table = batchable();
    let program = text::chars(command.program.as_str());
    let is_pacman = text::eq_str(program.as_slice(), "pacman");
    let ghost args = strings_view(command.args@);
    let mut head: Vec<String> = Vec::new();
    let mut names: Vec<String> = Vec::new();
    let mut found = false;
    let mut fixed_left: usize = 0;
    let mut i: usize = 0;
    assert(args.take(0) =~= Seq::<Seq<char>>::empty());
    assert(strings_view(head@) =~= Seq::<Seq<char>>::empty());
    assert(strings_view(names@) =~= Seq::<Seq<char>>::empty());
    while i < command.args.len()
        invariant
            table@.map_values(|x: BatchRule| rule_view(x)) == rules(),
            program@ == command.program@,
            is_pacman == (program@ == "pacman"@),
            args == strings_view(command.args@),
            i <= command.args@.len(),
            key_fold(program@, args.take(i as int)) == Some(
                KeyState {
                    found,
                    fixed_left: fixed_left as nat,
                    head: strings_view(head@),
                    names: strings_view(names@),
                },
            ),
        decreases command.args@.len() - i,
    {
        let arg = text::chars(command.args[i].as_str());
        let a = arg.as_slice();
        proof {
            assert(args.take(i + 1).drop_last() =~= args.take(i as int));
            assert(args.take(i + 1).last() == arg@);
        }
        let starts_dash = a.len() > 0 && a[0] == '-';
        let ghost hv = strings_view(head@);
        if !found {
            if starts_dash && !is_pacman {
                head.push(command.args[i].clone());
                assert(strings_view(head@) =~= hv.push(arg@));
            } else {
                match find_rule(&table, program.as_slice(), a) {
                    None => {
                        proof {
                            lemma_key_fold_stays_none(program@, args, i + 1);
                        }
                        return None;
                    },
                    Some(h) => {
                        found = true;
                        fixed_left = h;
                        head.push(command.args[i].clone());
                        assert(strings_view(head@) =~= hv.push(arg@));
                    },
                }
            }
        } else if starts_dash {
            if names.len() > 0 {
                proof {
                    lemma_key_fold_stays_none(program@, args, i + 1);
                }
                return None;
            }
            head.push(command.args[i].clone());
            assert(strings_view(head@) =~= hv.push(arg@));
        } else if fixed_left > 0 {
            fixed_left = fixed_left - 1;
            head.push(command.args[i].clone());
            assert(strings_view(head@) =~= hv.push(arg@));
        } else {
            let ghost nv = strings_view(names@);
            names.push(command.args[i].clone());
            assert(strings_view(names@) =~= nv.push(arg@));
        }
        i = i + 1;
    }
    assert(args.take(args.len() as int) =~= args);
    if !found || fixed_left > 0 {
        return None;
    }
    Some(BatchKey { program: command.program.clone(), head, names })
}

// ---------------------------------------------------------------------------
// Lanes
// ---------------------------------------------------------------------------

/// A step as a source gave it, with the operation it came from.
#[derive(Clone, Debug, PartialEq, Eq)]
pub struct Gathered {
    pub step: Step,
    /// Index into the plan's operations.
    pub op: usize,
    /// Whether that operation is a refresh.
    pub refresh: bool,
}

/// A step as mathematics.
pub struct StepView {
    pub source: SourceKind,
    pub title: Seq<char>,
    pub program: Seq<char>,
    pub args: Seq<Seq<char>>,
    pub env: Seq<(Seq<char>, Seq<char>)>,
    pub cwd: Option<Seq<char>>,
    pub needs_root: bool,
    pub weight: u32,
}

pub open spec fn step_view(s: Step) -> StepView {
    StepView {
        source: s.source,
        title: s.title@,
        program: s.command.program@,
        args: strings_view(s.command.args@),
        env: crate::allow::env_view(s.command.env@),
        cwd: crate::model::opt_view(s.command.cwd),
        needs_root: s.needs_root,
        weight: s.weight,
    }
}

pub open spec fn steps_view(v: Seq<Step>) -> Seq<StepView> {
    v.map_values(|s: Step| step_view(s))
}

pub struct GatheredView {
    pub step: StepView,
    pub op: nat,
    pub refresh: bool,
}

pub open spec fn gathered_view(g: Gathered) -> GatheredView {
    GatheredView { step: step_view(g.step), op: g.op as nat, refresh: g.refresh }
}

pub open spec fn gathered_views(v: Seq<Gathered>) -> Seq<GatheredView> {
    v.map_values(|g: Gathered| gathered_view(g))
}

fn copy_text(s: &String) -> (r: String)
    ensures
        r@ == s@,
{
    s.clone()
}

pub(crate) fn copy_texts(v: &Vec<String>) -> (r: Vec<String>)
    ensures
        strings_view(r@) == strings_view(v@),
{
    let mut r: Vec<String> = Vec::new();
    let mut i: usize = 0;
    while i < v.len()
        invariant
            i <= v@.len(),
            strings_view(r@) == strings_view(v@.take(i as int)),
        decreases v@.len() - i,
    {
        let ghost o = r@;
        r.push(copy_text(&v[i]));
        assert(v@.take(i + 1) =~= v@.take(i as int).push(v@[i as int]));
        assert(strings_view(r@) =~= strings_view(o).push(v@[i as int]@));
        assert(strings_view(v@.take(i + 1)) =~= strings_view(v@.take(i as int)).push(v@[i as int]@));
        i = i + 1;
    }
    assert(v@.take(v@.len() as int) =~= v@);
    r
}

pub(crate) fn copy_env(v: &Vec<(String, String)>) -> (r: Vec<(String, String)>)
    ensures
        crate::allow::env_view(r@) == crate::allow::env_view(v@),
{
    let mut r: Vec<(String, String)> = Vec::new();
    let mut i: usize = 0;
    while i < v.len()
        invariant
            i <= v@.len(),
            crate::allow::env_view(r@) == crate::allow::env_view(v@.take(i as int)),
        decreases v@.len() - i,
    {
        let ghost o = r@;
        r.push((copy_text(&v[i].0), copy_text(&v[i].1)));
        let ghost e = (v@[i as int].0@, v@[i as int].1@);
        assert(v@.take(i + 1) =~= v@.take(i as int).push(v@[i as int]));
        assert(crate::allow::env_view(r@) =~= crate::allow::env_view(o).push(e));
        assert(crate::allow::env_view(v@.take(i + 1)) =~= crate::allow::env_view(v@.take(i as int)).push(e));
        i = i + 1;
    }
    assert(v@.take(v@.len() as int) =~= v@);
    r
}

/// A step with the same view as `s`.
pub fn copy_step(s: &Step) -> (r: Step)
    ensures
        step_view(r) == step_view(*s),
{
    Step {
        source: s.source,
        title: copy_text(&s.title),
        command: Command {
            program: copy_text(&s.command.program),
            args: copy_texts(&s.command.args),
            env: copy_env(&s.command.env),
            cwd: match &s.command.cwd {
                Some(c) => Some(copy_text(c)),
                None => None,
            },
        },
        needs_root: s.needs_root,
        weight: s.weight,
    }
}

fn copy_gathered(g: &Gathered) -> (r: Gathered)
    ensures
        gathered_view(r) == gathered_view(*g),
{
    Gathered { step: copy_step(&g.step), op: g.op, refresh: g.refresh }
}

/// The sources of the operations, each once, in order of first appearance.
pub open spec fn ranks_of(kinds: Seq<SourceKind>) -> Seq<SourceKind>
    decreases kinds.len(),
{
    if kinds.len() == 0 {
        Seq::empty()
    } else {
        let r = ranks_of(kinds.drop_last());
        if r.contains(kinds.last()) {
            r
        } else {
            r.push(kinds.last())
        }
    }
}

pub open spec fn op_kinds(ops: Seq<Op>) -> Seq<SourceKind> {
    ops.map_values(|op: Op| model::op_source(op))
}

/// Where `k` first stands in `s`, or `s.len()` when it does not.
pub open spec fn position(s: Seq<SourceKind>, k: SourceKind) -> nat
    decreases s.len(),
{
    if s.len() == 0 {
        0
    } else if s[0] == k {
        0
    } else {
        1 + position(s.drop_first(), k)
    }
}

/// A source whose non-refresh steps put a root step after a session step
/// depends on that order.
pub open spec fn order_bound(g: Seq<GatheredView>, k: SourceKind) -> bool {
    exists|i: int, j: int|
        0 <= i < j < g.len() && !g[i].refresh && !g[j].refresh && (#[trigger] g[i]).step.source == k
            && (#[trigger] g[j]).step.source == k && !g[i].step.needs_root && g[j].step.needs_root
}

pub open spec fn bound_pred(g: Seq<GatheredView>) -> spec_fn(SourceKind) -> bool {
    |k: SourceKind| order_bound(g, k)
}

/// The sources, among the ranked ones, bound to their own order.
pub open spec fn bound_kinds(g: Seq<GatheredView>, ranks: Seq<SourceKind>) -> Seq<SourceKind> {
    ranks.filter(bound_pred(g))
}

/// Refresh steps first (0), then root steps (1), then session steps (2); a
/// source bound to its own order goes with the session steps whole.
pub open spec fn lane(x: GatheredView, bound: Seq<SourceKind>) -> nat {
    if x.refresh {
        0
    } else if bound.contains(x.step.source) {
        2
    } else if x.step.needs_root {
        1
    } else {
        2
    }
}

/// The sort key: lane, then the rank of the source.
pub open spec fn order_key(g: Seq<GatheredView>, ranks: Seq<SourceKind>) -> spec_fn(GatheredView) -> nat {
    |x: GatheredView| lane(x, bound_kinds(g, ranks)) * (ranks.len() + 1) + position(ranks, x.step.source)
}

pub open spec fn key_is(f: spec_fn(GatheredView) -> nat, k: nat) -> spec_fn(GatheredView) -> bool {
    |x: GatheredView| f(x) == k
}

/// The items of each key in turn, each group in its first order: a stable
/// sort by the key.
pub open spec fn grouped(g: Seq<GatheredView>, f: spec_fn(GatheredView) -> nat, n: nat) -> Seq<GatheredView>
    decreases n,
{
    if n == 0 {
        Seq::empty()
    } else {
        grouped(g, f, (n - 1) as nat) + g.filter(key_is(f, (n - 1) as nat))
    }
}

proof fn lemma_grouped_nothing(f: spec_fn(GatheredView) -> nat, n: nat)
    ensures
        grouped(Seq::empty(), f, n).len() == 0,
    decreases n,
{
    if n > 0 {
        lemma_grouped_nothing(f, (n - 1) as nat);
        reveal(Seq::filter);
        assert(Seq::<GatheredView>::empty().filter(key_is(f, (n - 1) as nat)).len() == 0);
    }
}

/// The gathered steps ordered by (lane, source rank, sequence).
pub open spec fn order_spec(g: Seq<GatheredView>, ops: Seq<Op>) -> Seq<GatheredView> {
    let ranks = ranks_of(op_kinds(ops));
    grouped(g, order_key(g, ranks), (3 * (ranks.len() + 1)) as nat)
}

proof fn lemma_ranks_distinct(kinds: Seq<SourceKind>)
    ensures
        ranks_of(kinds).no_duplicates(),
    decreases kinds.len(),
{
    if kinds.len() > 0 {
        lemma_ranks_distinct(kinds.drop_last());
    }
}

/// Distinct sources are at most as many as there are sources.
proof fn lemma_distinct_kinds_bounded(s: Seq<SourceKind>)
    requires
        s.no_duplicates(),
    ensures
        s.len() <= 9,
{
    let all = model::all_kinds().to_set();
    assert forall|k: SourceKind| s.to_set().contains(k) implies all.contains(k) by {
        let i: int = match k {
            SourceKind::Pacman => 0,
            SourceKind::Aur => 1,
            SourceKind::Flatpak => 2,
            SourceKind::Snap => 3,
            SourceKind::Apt => 4,
            SourceKind::Dnf => 5,
            SourceKind::Github => 6,
            SourceKind::Fwupd => 7,
            SourceKind::Chwd => 8,
        };
        assert(model::all_kinds()[i] == k);
    }
    model::all_kinds().lemma_cardinality_of_set();
    s.unique_seq_to_set();
    vstd::seq_lib::seq_to_set_is_finite(model::all_kinds());
    vstd::set_lib::lemma_len_subset(s.to_set(), all);
}

fn ranks_exec(ops: &[Op]) -> (r: Vec<SourceKind>)
    ensures
        r@ == ranks_of(op_kinds(ops@)),
        r@.len() <= 9,
{
    let ghost kinds = op_kinds(ops@);
    let mut r: Vec<SourceKind> = Vec::new();
    let mut i: usize = 0;
    while i < ops.len()
        invariant
            kinds == op_kinds(ops@),
            i <= ops@.len(),
            r@ == ranks_of(kinds.take(i as int)),
        decreases ops@.len() - i,
    {
        let k = ops[i].source();
        assert(kinds.take(i + 1).drop_last() =~= kinds.take(i as int));
        assert(kinds.take(i + 1).last() == k);
        let mut seen = false;
        let mut j: usize = 0;
        while j < r.len() && !seen
            invariant
                j <= r@.len(),
                seen ==> r@.contains(k),
                !seen ==> forall|x: int| 0 <= x < j ==> r@[x] != k,
            decreases r@.len() - j,
        {
            if r[j] == k {
                seen = true;
            }
            j = j + 1;
        }
        if !seen {
            r.push(k);
        }
        i = i + 1;
    }
    assert(kinds.take(kinds.len() as int) =~= kinds);
    proof {
        lemma_ranks_distinct(kinds);
        lemma_distinct_kinds_bounded(r@);
    }
    r
}

fn position_exec(s: &Vec<SourceKind>, k: SourceKind) -> (r: usize)
    ensures
        r as nat == position(s@, k),
        r <= s@.len(),
{
    let mut i: usize = 0;
    assert(s@.skip(0) =~= s@);
    while i < s.len()
        invariant
            i <= s@.len(),
            position(s@, k) == i + position(s@.skip(i as int), k),
        decreases s@.len() - i,
    {
        if s[i] == k {
            return i;
        }
        assert(s@.skip(i as int).drop_first() =~= s@.skip(i + 1));
        i = i + 1;
    }
    i
}

fn bound_exec(g: &Vec<Gathered>, k: SourceKind) -> (r: bool)
    ensures
        r == order_bound(gathered_views(g@), k),
{
    let ghost v = gathered_views(g@);
    let mut seen_session = false;
    let mut first_session: usize = 0;
    let mut i: usize = 0;
    while i < g.len()
        invariant
            v == gathered_views(g@),
            v.len() == g@.len(),
            i <= g@.len(),
            seen_session ==> first_session < i && !v[first_session as int].refresh
                && v[first_session as int].step.source == k
                && !v[first_session as int].step.needs_root,
            !seen_session ==> forall|x: int|
                0 <= x < i ==> !(!v[x].refresh && v[x].step.source == k && !v[x].step.needs_root),
            forall|x: int, y: int|
                0 <= x < y < i ==> !(!(#[trigger] v[x]).refresh && !(#[trigger] v[y]).refresh
                    && v[x].step.source == k && v[y].step.source == k && !v[x].step.needs_root
                    && v[y].step.needs_root),
        decreases g@.len() - i,
    {
        let x = &g[i];
        assert(v[i as int] == gathered_view(*x));
        if !x.refresh && x.step.source == k {
            if !x.step.needs_root {
                if !seen_session {
                    first_session = i;
                }
                seen_session = true;
            } else if seen_session {
                assert(!v[first_session as int].refresh && !v[i as int].refresh);
                return true;
            }
        }
        i = i + 1;
    }
    false
}

fn lane_exec(x: &Gathered, bound: &Vec<SourceKind>) -> (r: usize)
    ensures
        r as nat == lane(gathered_view(*x), bound@),
        r <= 2,
{
    if x.refresh {
        return 0;
    }
    let mut i: usize = 0;
    let mut in_bound = false;
    while i < bound.len() && !in_bound
        invariant
            i <= bound@.len(),
            in_bound ==> bound@.contains(x.step.source),
            !in_bound ==> forall|j: int| 0 <= j < i ==> bound@[j] != x.step.source,
        decreases bound@.len() - i,
    {
        if bound[i] == x.step.source {
            in_bound = true;
        }
        i = i + 1;
    }
    if in_bound {
        2
    } else if x.step.needs_root {
        1
    } else {
        2
    }
}

fn bound_exec_all(g: &Vec<Gathered>, ranks: &Vec<SourceKind>) -> (r: Vec<SourceKind>)
    ensures
        r@ == bound_kinds(gathered_views(g@), ranks@),
{
    let ghost v = gathered_views(g@);
    let mut r: Vec<SourceKind> = Vec::new();
    let mut i: usize = 0;
    proof {
        reveal(Seq::filter);
        assert(ranks@.take(0) =~= Seq::<SourceKind>::empty());
    }
    while i < ranks.len()
        invariant
            v == gathered_views(g@),
            i <= ranks@.len(),
            r@ == ranks@.take(i as int).filter(bound_pred(v)),
        decreases ranks@.len() - i,
    {
        let k = ranks[i];
        assert(ranks@.take(i + 1) =~= ranks@.take(i as int).push(k));
        proof {
            ranks@.take(i as int).lemma_filter_push(k, bound_pred(v));
        }
        if bound_exec(g, k) {
            r.push(k);
        }
        i = i + 1;
    }
    assert(ranks@.take(ranks@.len() as int) =~= ranks@);
    r
}

/// The gathered steps ordered by (lane, source rank, sequence).
fn order(gathered: &Vec<Gathered>, ops: &[Op]) -> (r: Vec<Gathered>)
    ensures
        gathered_views(r@) == order_spec(gathered_views(gathered@), ops@),
{
    let ghost v = gathered_views(gathered@);
    let ranks = ranks_exec(ops);
    let bound = bound_exec_all(gathered, &ranks);
    let ghost f = order_key(v, ranks@);
    let groups: usize = 3 * (ranks.len() + 1);
    let mut out: Vec<Gathered> = Vec::new();
    let mut key: usize = 0;
    proof {
        reveal(Seq::filter);
        assert(gathered_views(out@) =~= grouped(v, f, 0));
    }
    while key < groups
        invariant
            v == gathered_views(gathered@),
            v.len() == gathered@.len(),
            f == order_key(v, ranks@),
            bound@ == bound_kinds(v, ranks@),
            ranks@ == ranks_of(op_kinds(ops@)),
            ranks@.len() <= 9,
            groups == 3 * (ranks@.len() + 1),
            key <= groups,
            gathered_views(out@) == grouped(v, f, key as nat),
        decreases groups - key,
    {
        let ghost before = gathered_views(out@);
        let mut i: usize = 0;
        assert(v.take(0) =~= Seq::<GatheredView>::empty());
        while i < gathered.len()
            invariant
                v == gathered_views(gathered@),
                v.len() == gathered@.len(),
                f == order_key(v, ranks@),
                bound@ == bound_kinds(v, ranks@),
                ranks@.len() <= 9,
                key < groups,
                groups == 3 * (ranks@.len() + 1),
                i <= gathered@.len(),
                gathered_views(out@) == before + v.take(i as int).filter(key_is(f, key as nat)),
            decreases gathered@.len() - i,
        {
            let x = &gathered[i];
            assert(v[i as int] == gathered_view(*x));
            let l = lane_exec(x, &bound);
            let p = position_exec(&ranks, x.step.source);
            let n: usize = ranks.len() + 1;
            assert(l * n <= 20) by (nonlinear_arith)
                requires
                    l <= 2,
                    n <= 10,
            ;
            let k: usize = l * n + p;
            assert(k as nat == f(gathered_view(*x)));
            assert(v.take(i + 1) =~= v.take(i as int).push(gathered_view(*x)));
            proof {
                v.take(i as int).lemma_filter_push(gathered_view(*x), key_is(f, key as nat));
            }
            assert(key_is(f, key as nat)(gathered_view(*x)) == (k == key));
            if k == key {
                let ghost o = out@;
                out.push(copy_gathered(x));
                assert(gathered_views(out@) =~= gathered_views(o).push(gathered_view(*x)));
            }
            i = i + 1;
        }
        assert(v.take(v.len() as int) =~= v);
        key = key + 1;
    }
    out
}

// ---------------------------------------------------------------------------
// Batching
// ---------------------------------------------------------------------------

/// How many of the indexed operations satisfy `pred`; an index past the
/// end counts for nothing.
pub open spec fn count_ops(idx: Seq<nat>, ops: Seq<Op>, pred: spec_fn(Op) -> bool) -> nat
    decreases idx.len(),
{
    if idx.len() == 0 {
        0
    } else {
        count_ops(idx.drop_last(), ops, pred) + if idx.last() < ops.len() && pred(ops[idx.last() as int]) {
            1nat
        } else {
            0nat
        }
    }
}

pub open spec fn is_remove() -> spec_fn(Op) -> bool {
    |op: Op| op is Remove
}

pub open spec fn is_update() -> spec_fn(Op) -> bool {
    |op: Op| op is Update || op is UpdateAll
}

pub open spec fn is_refresh() -> spec_fn(Op) -> bool {
    |op: Op| op is Refresh
}

/// "Installing 3 packages", from what the operations that fed a batch
/// asked for: all removes say Removing, all updates Updating, all refreshes
/// Refreshing, and anything else Installing.
pub open spec fn title_spec(idx: Seq<nat>, ops: Seq<Op>, count: nat) -> Seq<char> {
    let n = idx.len();
    let verb = if count_ops(idx, ops, is_remove()) == n {
        "Removing"@
    } else if count_ops(idx, ops, is_update()) == n {
        "Updating"@
    } else if count_ops(idx, ops, is_refresh()) == n {
        "Refreshing"@
    } else {
        "Installing"@
    };
    verb + " "@ + text::decimal(count) + " packages"@
}

pub open spec fn indexes_view(v: Seq<usize>) -> Seq<nat> {
    v.map_values(|i: usize| i as nat)
}

fn batched_title(op_indexes: &Vec<usize>, ops: &[Op], count: usize) -> (r: String)
    ensures
        r@ == title_spec(indexes_view(op_indexes@), ops@, count as nat),
{
    let ghost idx = indexes_view(op_indexes@);
    let mut removes: usize = 0;
    let mut updates: usize = 0;
    let mut refreshes: usize = 0;
    let mut i: usize = 0;
    while i < op_indexes.len()
        invariant
            idx == indexes_view(op_indexes@),
            i <= op_indexes@.len(),
            removes as nat == count_ops(idx.take(i as int), ops@, is_remove()),
            updates as nat == count_ops(idx.take(i as int), ops@, is_update()),
            refreshes as nat == count_ops(idx.take(i as int), ops@, is_refresh()),
            removes <= i && updates <= i && refreshes <= i,
        decreases op_indexes@.len() - i,
    {
        let k = op_indexes[i];
        assert(idx.take(i + 1).drop_last() =~= idx.take(i as int));
        assert(idx.take(i + 1).last() == k as nat);
        if k < ops.len() {
            match &ops[k] {
                Op::Remove { .. } => {
                    removes = removes + 1;
                },
                Op::Update { .. } => {
                    updates = updates + 1;
                },
                Op::UpdateAll { .. } => {
                    updates = updates + 1;
                },
                Op::Refresh { .. } => {
                    refreshes = refreshes + 1;
                },
                _ => {},
            }
        }
        i = i + 1;
    }
    assert(idx.take(idx.len() as int) =~= idx);
    let n = op_indexes.len();
    let mut s = if removes == n {
        text::string_from("Removing")
    } else if updates == n {
        text::string_from("Updating")
    } else if refreshes == n {
        text::string_from("Refreshing")
    } else {
        text::string_from("Installing")
    };
    text::push_str(&mut s, " ");
    text::push_decimal(&mut s, count as u64);
    text::push_str(&mut s, " packages");
    s
}

/// A step being built, with its key and the operations that fed it.
pub struct PendingView {
    pub step: StepView,
    pub key: Option<(Seq<Seq<char>>, Seq<Seq<char>>)>,
    pub ops: Seq<nat>,
}

/// Two consecutive steps join when they have the same source, privilege,
/// environment, working directory, program and head.
pub open spec fn joinable(
    a: StepView,
    b: StepView,
    ka: (Seq<Seq<char>>, Seq<Seq<char>>),
    kb: (Seq<Seq<char>>, Seq<Seq<char>>),
) -> bool {
    &&& a.source == b.source
    &&& a.needs_root == b.needs_root
    &&& a.env == b.env
    &&& a.cwd == b.cwd
    &&& a.program == b.program
    &&& ka.0 == kb.0
}

/// `names`, then each new name not already there.
pub open spec fn add_names(names: Seq<Seq<char>>, new: Seq<Seq<char>>) -> Seq<Seq<char>>
    decreases new.len(),
{
    if new.len() == 0 {
        names
    } else {
        let r = add_names(names, new.drop_last());
        if r.contains(new.last()) {
            r
        } else {
            r.push(new.last())
        }
    }
}

pub open spec fn sat_add(a: u32, b: u32) -> u32 {
    if a + b > u32::MAX {
        u32::MAX
    } else {
        (a + b) as u32
    }
}

/// One ordered step more: joined into the last one where both batch and
/// are joinable, else a step of its own.
pub open spec fn batch_step(out: Seq<PendingView>, g: GatheredView, ops: Seq<Op>) -> Seq<
    PendingView,
> {
    let key = batch_key_spec(g.step.program, g.step.args);
    if out.len() > 0 && key is Some && out.last().key is Some && joinable(
        out.last().step,
        g.step,
        out.last().key.unwrap(),
        key.unwrap(),
    ) {
        let last = out.last();
        let head = last.key.unwrap().0;
        let names = add_names(last.key.unwrap().1, key.unwrap().1);
        let new_ops = last.ops.push(g.op);
        let title = if names.len() > 1 {
            title_spec(new_ops, ops, names.len())
        } else {
            last.step.title
        };
        let step = StepView {
            title,
            args: head + names,
            weight: sat_add(last.step.weight, g.step.weight),
            ..last.step
        };
        out.drop_last().push(PendingView { step, key: Some((head, names)), ops: new_ops })
    } else {
        out.push(PendingView { step: g.step, key, ops: seq![g.op] })
    }
}

pub open spec fn batch_fold(items: Seq<GatheredView>, ops: Seq<Op>) -> Seq<PendingView>
    decreases items.len(),
{
    if items.len() == 0 {
        Seq::empty()
    } else {
        batch_step(batch_fold(items.drop_last(), ops), items.last(), ops)
    }
}

pub open spec fn pending_steps(p: Seq<PendingView>) -> Seq<StepView> {
    p.map_values(|x: PendingView| x.step)
}

/// The steps of a plan from the gathered ones: ordered into lanes, then
/// batched.
pub open spec fn arrange_spec(g: Seq<GatheredView>, ops: Seq<Op>) -> Seq<StepView> {
    pending_steps(batch_fold(order_spec(g, ops), ops))
}

pub open spec fn key_view(k: Option<BatchKey>) -> Option<(Seq<Seq<char>>, Seq<Seq<char>>)> {
    match k {
        Some(b) => Some((strings_view(b.head@), strings_view(b.names@))),
        None => None,
    }
}

pub open spec fn pendings_view(steps: Seq<Step>, keys: Seq<Option<BatchKey>>, opss: Seq<Vec<usize>>) -> Seq<
    PendingView,
> {
    Seq::new(
        steps.len(),
        |j: int| PendingView { step: step_view(steps[j]), key: key_view(keys[j]), ops: indexes_view(opss[j]@) },
    )
}

fn texts_equal(a: &Vec<String>, b: &Vec<String>) -> (r: bool)
    ensures
        r == (strings_view(a@) == strings_view(b@)),
{
    if a.len() != b.len() {
        assert(strings_view(a@).len() != strings_view(b@).len());
        return false;
    }
    let mut i: usize = 0;
    while i < a.len()
        invariant
            a@.len() == b@.len(),
            i <= a@.len(),
            forall|j: int| 0 <= j < i ==> a@[j]@ == b@[j]@,
        decreases a@.len() - i,
    {
        if a[i] != b[i] {
            assert(strings_view(a@)[i as int] != strings_view(b@)[i as int]);
            return false;
        }
        i = i + 1;
    }
    assert(strings_view(a@) =~= strings_view(b@));
    true
}

fn env_equal(a: &Vec<(String, String)>, b: &Vec<(String, String)>) -> (r: bool)
    ensures
        r == (crate::allow::env_view(a@) == crate::allow::env_view(b@)),
{
    if a.len() != b.len() {
        assert(crate::allow::env_view(a@).len() != crate::allow::env_view(b@).len());
        return false;
    }
    let mut i: usize = 0;
    while i < a.len()
        invariant
            a@.len() == b@.len(),
            i <= a@.len(),
            forall|j: int| 0 <= j < i ==> a@[j].0@ == b@[j].0@ && a@[j].1@ == b@[j].1@,
        decreases a@.len() - i,
    {
        if a[i].0 != b[i].0 || a[i].1 != b[i].1 {
            assert(crate::allow::env_view(a@)[i as int] != crate::allow::env_view(b@)[i as int]);
            return false;
        }
        i = i + 1;
    }
    assert(crate::allow::env_view(a@) =~= crate::allow::env_view(b@));
    true
}

fn cwd_equal(a: &Option<String>, b: &Option<String>) -> (r: bool)
    ensures
        r == (crate::model::opt_view(*a) == crate::model::opt_view(*b)),
{
    match (a, b) {
        (Some(x), Some(y)) => *x == *y,
        (None, None) => true,
        _ => false,
    }
}

fn joinable_exec(a: &Step, b: &Step, ka: &BatchKey, kb: &BatchKey) -> (r: bool)
    requires
        ka.program@ == a.command.program@,
        kb.program@ == b.command.program@,
    ensures
        r == joinable(
            step_view(*a),
            step_view(*b),
            key_view(Some(*ka)).unwrap(),
            key_view(Some(*kb)).unwrap(),
        ),
{
    a.source == b.source && a.needs_root == b.needs_root && env_equal(&a.command.env, &b.command.env)
        && cwd_equal(&a.command.cwd, &b.command.cwd) && ka.program == kb.program && texts_equal(
        &ka.head,
        &kb.head,
    )
}

fn add_names_exec(names: &mut Vec<String>, new: &Vec<String>)
    ensures
        strings_view(final(names)@) == add_names(strings_view(old(names)@), strings_view(new@)),
{
    let ghost start = strings_view(names@);
    let ghost nv = strings_view(new@);
    let mut i: usize = 0;
    while i < new.len()
        invariant
            nv == strings_view(new@),
            i <= new@.len(),
            strings_view(names@) == add_names(start, nv.take(i as int)),
        decreases new@.len() - i,
    {
        let ghost cur = strings_view(names@);
        assert(nv.take(i + 1).drop_last() =~= nv.take(i as int));
        assert(nv.take(i + 1).last() == new@[i as int]@);
        let mut seen = false;
        let mut j: usize = 0;
        while j < names.len() && !seen
            invariant
                cur == strings_view(names@),
                i < new@.len(),
                j <= names@.len(),
                seen ==> cur.contains(new@[i as int]@),
                !seen ==> forall|x: int| 0 <= x < j ==> cur[x] != new@[i as int]@,
            decreases names@.len() - j,
        {
            if names[j] == new[i] {
                assert(cur[j as int] == new@[i as int]@);
                seen = true;
            }
            j = j + 1;
        }
        if !seen {
            names.push(copy_text(&new[i]));
            assert(strings_view(names@) =~= cur.push(new@[i as int]@));
        }
        i = i + 1;
    }
    assert(nv.take(nv.len() as int) =~= nv);
}

fn join_texts(head: &Vec<String>, names: &Vec<String>) -> (r: Vec<String>)
    ensures
        strings_view(r@) == strings_view(head@) + strings_view(names@),
{
    let mut r = copy_texts(head);
    let mut i: usize = 0;
    while i < names.len()
        invariant
            i <= names@.len(),
            strings_view(r@) == strings_view(head@) + strings_view(names@.take(i as int)),
        decreases names@.len() - i,
    {
        let ghost o = r@;
        r.push(copy_text(&names[i]));
        assert(names@.take(i + 1) =~= names@.take(i as int).push(names@[i as int]));
        assert(strings_view(r@) =~= strings_view(o).push(names@[i as int]@));
        assert(strings_view(names@.take(i + 1)) =~= strings_view(names@.take(i as int)).push(
            names@[i as int]@,
        ));
        i = i + 1;
    }
    assert(names@.take(names@.len() as int) =~= names@);
    r
}

/// Join consecutive batchable steps.
fn batch(ordered: &Vec<Gathered>, ops: &[Op]) -> (r: Vec<Step>)
    ensures
        steps_view(r@) == pending_steps(batch_fold(gathered_views(ordered@), ops@)),
{
    let ghost items = gathered_views(ordered@);
    let mut steps: Vec<Step> = Vec::new();
    let mut keys: Vec<Option<BatchKey>> = Vec::new();
    let mut opss: Vec<Vec<usize>> = Vec::new();
    let mut i: usize = 0;
    assert(items.take(0) =~= Seq::<GatheredView>::empty());
    assert(pendings_view(steps@, keys@, opss@) =~= Seq::<PendingView>::empty());
    while i < ordered.len()
        invariant
            items == gathered_views(ordered@),
            items.len() == ordered@.len(),
            i <= ordered@.len(),
            steps@.len() == keys@.len(),
            steps@.len() == opss@.len(),
            forall|j: int|
                0 <= j < keys@.len() ==> (#[trigger] keys@[j] matches Some(k) ==> k.program@
                    == steps@[j].command.program@),
            pendings_view(steps@, keys@, opss@) == batch_fold(items.take(i as int), ops@),
        decreases ordered@.len() - i,
    {
        let g = &ordered[i];
        assert(items[i as int] == gathered_view(*g));
        assert(items.take(i + 1).drop_last() =~= items.take(i as int));
        assert(items.take(i + 1).last() == gathered_view(*g));
        let ghost before = pendings_view(steps@, keys@, opss@);
        let key = batch_key(&g.step.command);
        assert(key_view(key) == batch_key_spec(
            step_view(g.step).program,
            step_view(g.step).args,
        ));
        let n = steps.len();
        let joins = if n > 0 {
            match (&keys[n - 1], &key) {
                (Some(last_key), Some(k)) => joinable_exec(&steps[n - 1], &g.step, last_key, k),
                _ => false,
            }
        } else {
            false
        };
        proof {
            if n > 0 {
                assert(before.last() == PendingView {
                    step: step_view(steps@[n - 1]),
                    key: key_view(keys@[n - 1]),
                    ops: indexes_view(opss@[n - 1]@),
                });
            }
        }
        if joins {
            let ghost old_steps = steps@;
            let ghost old_keys = keys@;
            let ghost old_opss = opss@;
            let mut last_step = steps.pop().unwrap();
            let mut last_key = keys.pop().unwrap().unwrap();
            let mut last_ops = opss.pop().unwrap();
            let k = key.unwrap();
            let ghost lk_names = strings_view(last_key.names@);
            add_names_exec(&mut last_key.names, &k.names);
            let ghost lo = last_ops@;
            last_ops.push(g.op);
            assert(indexes_view(last_ops@) =~= indexes_view(lo).push(g.op as nat));
            last_step.weight = last_step.weight.saturating_add(g.step.weight);
            last_step.command.args = join_texts(&last_key.head, &last_key.names);
            if last_key.names.len() > 1 {
                last_step.title = batched_title(&last_ops, ops, last_key.names.len());
            }
            steps.push(last_step);
            keys.push(Some(last_key));
            opss.push(last_ops);
            assert(pendings_view(steps@, keys@, opss@) =~= batch_step(before, gathered_view(*g), ops@));
        } else {
            steps.push(copy_step(&g.step));
            keys.push(key);
            opss.push(vec![g.op]);
            assert(indexes_view(opss@[n as int]@) =~= seq![g.op as nat]);
            assert(pendings_view(steps@, keys@, opss@) =~= batch_step(before, gathered_view(*g), ops@));
        }
        i = i + 1;
    }
    assert(items.take(items.len() as int) =~= items);
    assert(steps_view(steps@) =~= pending_steps(pendings_view(steps@, keys@, opss@)));
    steps
}

// ---------------------------------------------------------------------------
// Plans
// ---------------------------------------------------------------------------

/// The steps of a plan, from what the sources gave: ordered into lanes,
/// then batched.
pub fn arrange(gathered: &Vec<Gathered>, ops: &[Op]) -> (r: Vec<Step>)
    ensures
        steps_view(r@) == arrange_spec(gathered_views(gathered@), ops@),
{
    let ordered = order(gathered, ops);
    batch(&ordered, ops)
}

/// Gathered steps as a plan's sources give them: each names an operation
/// of the plan, in the operations' order, and is a refresh step exactly
/// when its operation is a refresh.
pub open spec fn gathered_from(g: Seq<GatheredView>, ops: Seq<Op>) -> bool {
    &&& forall|j: int| 0 <= j < g.len() ==> (#[trigger] g[j]).op < ops.len()
    &&& forall|j: int| 0 <= j < g.len() ==> (#[trigger] g[j]).refresh == (ops[g[j].op as int] is Refresh)
    &&& forall|i: int, j: int| 0 <= i < j < g.len() ==> (#[trigger] g[i]).op <= (#[trigger] g[j]).op
}

/// A plan's id: `plan-` and a number.
pub open spec fn plan_id(id: Seq<char>) -> bool {
    exists|n: nat| id == "plan-"@ + text::decimal(n)
}

/// What a built plan is: a fresh id, and steps arranged from some steps
/// the sources gave for these operations.
pub open spec fn plan_made_from(p: Plan, ops: Seq<Op>) -> bool {
    &&& plan_id(p.id@)
    &&& exists|g: Seq<GatheredView>| gathered_from(g, ops) && steps_view(p.steps@) == arrange_spec(g, ops)
}

/// Milliseconds since the Unix epoch by the system clock, or 0 for a clock
/// set before it. (`SystemTime::UNIX_EPOCH.elapsed`.)
#[verifier::external_body]
fn clock_millis() -> (r: u64) {
    std::time::UNIX_EPOCH.elapsed().map(|d| d.as_millis() as u64).unwrap_or(0)
}

/// A fresh plan id from the clock: `plan-<milliseconds>`.
pub fn new_id() -> (r: String)
    ensures
        plan_id(r@),
{
    let t = clock_millis();
    let mut s = text::string_from("plan-");
    text::push_decimal(&mut s, t);
    assert(s@ == "plan-"@ + text::decimal(t as nat));
    s
}

fn copy_op(op: &Op) -> (r: Op)
    ensures
        r == *op,
{
    match op {
        Op::Install { package } => Op::Install {
            package: model::PackageRef { source: package.source, id: package.id.clone() },
        },
        Op::Remove { package } => Op::Remove {
            package: model::PackageRef { source: package.source, id: package.id.clone() },
        },
        Op::Update { package } => Op::Update {
            package: model::PackageRef { source: package.source, id: package.id.clone() },
        },
        Op::UpdateAll { source } => Op::UpdateAll { source: *source },
        Op::Refresh { source } => Op::Refresh { source: *source },
    }
}

/// One operation's steps as its source gave them, each tagged with the
/// operation's place and whether it is a refresh.
pub open spec fn tagged(steps: Seq<Step>, op: nat, refresh: bool) -> Seq<GatheredView> {
    Seq::new(steps.len(), |j: int| GatheredView { step: step_view(steps[j]), op, refresh })
}

/// Every operation's steps, in the operations' order.
pub open spec fn gathered_of(answers: Seq<Vec<Step>>, ops: Seq<Op>) -> Seq<GatheredView>
    decreases answers.len(),
{
    if answers.len() == 0 {
        Seq::empty()
    } else {
        let i = (answers.len() - 1) as nat;
        gathered_of(answers.drop_last(), ops) + tagged(answers.last()@, i, ops[i as int] is Refresh)
    }
}

/// Whether these steps are answers the store's sources can give: each
/// operation asked of the store's source of its kind, which planned it.
pub open spec fn answered_plans(
    sources: Seq<Box<dyn crate::store::Source>>,
    ops: Seq<Op>,
    answers: Seq<Vec<Step>>,
) -> bool {
    &&& answers.len() == ops.len()
    &&& forall|i: int|
        0 <= i < ops.len() ==> sources[crate::store::first_index(sources, model::op_source(ops[i]))].plan_answer(
            ops[i],
            Ok(#[trigger] answers[i]),
        )
}

/// A plan the store's sources made: the steps are those they gave for the
/// operations, ordered into lanes and batched.
pub open spec fn planned_by(sources: Seq<Box<dyn crate::store::Source>>, ops: Seq<Op>, p: Plan) -> bool {
    exists|answers: Seq<Vec<Step>>|
        answered_plans(sources, ops, answers) && steps_view(p.steps@) == arrange_spec(gathered_of(answers, ops), ops)
}

/// A refusal with a reason: an operation whose source the store does not
/// have, or a source that refused an operation with this error.
pub open spec fn refused_by(sources: Seq<Box<dyn crate::store::Source>>, ops: Seq<Op>, e: Error) -> bool {
    ||| !crate::store::sources_for_all(sources, ops)
    ||| exists|i: int|
        0 <= i < ops.len() && crate::store::has_kind(sources, model::op_source(ops[i]))
            && sources[crate::store::first_index(sources, model::op_source(ops[i]))].plan_answer(ops[i], Err(e))
}

/// Build the plan for `ops`: ask each operation's source for its steps,
/// order them into lanes, batch what can be batched. An operation whose
/// source the store does not have is refused with a sentence that names
/// the source, and a source that cannot plan refuses the plan with its own
/// sentence.
pub fn build(store: &crate::store::Store, ops: &[Op]) -> (r: Result<Plan, Error>)
    ensures
        r matches Ok(p) ==> p.ops@ == ops@ && plan_made_from(p, ops@),
        r matches Ok(p) ==> planned_by(store.sources@, ops@, p),
        r matches Err(e) ==> refused_by(store.sources@, ops@, e),
        ops@.len() == 0 ==> (r matches Ok(p) && p.steps@.len() == 0),
        !crate::store::sources_for_all(store.sources@, ops@) ==> r is Err,
        ops@.len() > 0 && !crate::store::has_kind(store.sources@, model::op_source(ops@[0])) ==> (r matches Err(e)
            && e.message@ == crate::store::missing_source_text(model::op_source(ops@[0])) && e.source_kind is None),
{
    let mut gathered: Vec<Gathered> = Vec::new();
    let ghost mut answers: Seq<Vec<Step>> = Seq::empty();
    let mut index: usize = 0;
    assert(gathered_views(gathered@) =~= gathered_of(answers, ops@));
    while index < ops.len()
        invariant
            index <= ops@.len(),
            answers.len() == index,
            forall|i: int|
                0 <= i < index ==> store.sources@[crate::store::first_index(store.sources@, model::op_source(ops@[i]))].plan_answer(
                    ops@[i],
                    Ok(#[trigger] answers[i]),
                ),
            gathered_views(gathered@) == gathered_of(answers, ops@),
            forall|j: int| 0 <= j < gathered@.len() ==> (#[trigger] gathered@[j]).op < index,
            gathered_from(gathered_views(gathered@), ops@),
            forall|j: int| 0 <= j < index ==> crate::store::has_kind(store.sources@, #[trigger] model::op_source(ops@[j])),
        decreases ops@.len() - index,
    {
        let op = &ops[index];
        let kind = op.source();
        let source = match store.source(kind) {
            Some(s) => s,
            None => {
                let mut s = text::string_from(kind.label());
                text::push_str(&mut s, " is not a source on this machine.");
                proof {
                    reveal_strlit(" is not a source on this machine.");
                    assert(!crate::store::has_kind(store.sources@, model::op_source(ops@[index as int])));
                }
                return Err(Error::new(s));
            },
        };
        let steps = match source.plan(op) {
            Ok(steps) => steps,
            Err(e) => {
                assert(crate::store::has_kind(store.sources@, model::op_source(ops@[index as int])));
                return Err(e);
            },
        };
        let ghost orig = steps;
        let ghost base = gathered_of(answers, ops@);
        let refresh = match op {
            Op::Refresh { .. } => true,
            _ => false,
        };
        let mut steps = steps;
        assert(orig@.take(0) =~= Seq::<Step>::empty());
        assert(tagged(orig@.take(0), index as nat, refresh) =~= Seq::<GatheredView>::empty());
        assert(base + Seq::<GatheredView>::empty() =~= base);
        assert(steps@ =~= orig@.subrange(orig@.len() - steps@.len(), orig@.len() as int));
        while steps.len() > 0
            invariant
                steps@.len() <= orig@.len(),
                steps@ == orig@.subrange(orig@.len() - steps@.len(), orig@.len() as int),
                gathered_views(gathered@) == base + tagged(orig@.take(orig@.len() - steps@.len()), index as nat, refresh),
                index < ops@.len(),
                refresh == (ops@[index as int] is Refresh),
                forall|j: int| 0 <= j < gathered@.len() ==> (#[trigger] gathered@[j]).op <= index,
                gathered_from(gathered_views(gathered@), ops@),
            decreases steps@.len(),
        {
            let ghost k = orig@.len() - steps@.len();
            let step = steps.remove(0);
            let ghost before = gathered@;
            gathered.push(Gathered { step, op: index, refresh });
            proof {
                assert(step == orig@[k]);
                assert(steps@ =~= orig@.subrange(orig@.len() - steps@.len(), orig@.len() as int));
                assert(tagged(orig@.take(k + 1), index as nat, refresh) =~= tagged(orig@.take(k), index as nat, refresh).push(
                    GatheredView { step: step_view(step), op: index as nat, refresh },
                ));
                assert(gathered_views(gathered@) =~= gathered_views(before).push(gathered_view(gathered@.last())));
                let v = gathered_views(gathered@);
                assert(v =~= gathered_views(before).push(gathered_view(gathered@.last())));
                assert forall|i: int, j: int| 0 <= i < j < v.len() implies (#[trigger] v[i]).op
                    <= (#[trigger] v[j]).op by {
                    if j == v.len() - 1 {
                        assert(before[i].op <= index);
                    } else {
                        assert(v[i] == gathered_views(before)[i]);
                        assert(v[j] == gathered_views(before)[j]);
                    }
                }
                assert forall|j: int| 0 <= j < v.len() implies (#[trigger] v[j]).op < ops@.len() by {
                    if j < v.len() - 1 {
                        assert(v[j] == gathered_views(before)[j]);
                    }
                }
                assert forall|j: int| 0 <= j < v.len() implies (#[trigger] v[j]).refresh == (
                ops@[v[j].op as int] is Refresh) by {
                    if j < v.len() - 1 {
                        assert(v[j] == gathered_views(before)[j]);
                    }
                }
            }
        }
        proof {
            assert(orig@.take(orig@.len() as int) =~= orig@);
            let next = answers.push(orig);
            assert(next.drop_last() =~= answers);
            assert(gathered_of(next, ops@) == base + tagged(orig@, index as nat, refresh));
            answers = next;
        }
        index = index + 1;
    }
    let steps = arrange(&gathered, ops);
    assert(answered_plans(store.sources@, ops@, answers));
    proof {
        if ops@.len() == 0 {
            let g = gathered_views(gathered@);
            if g.len() > 0 {
                assert(g[0].op < ops@.len());
            }
            assert(g =~= Seq::<GatheredView>::empty());
            let ranks = ranks_of(op_kinds(ops@));
            lemma_grouped_nothing(order_key(g, ranks), (3 * (ranks.len() + 1)) as nat);
            assert(steps_view(steps@).len() == 0);
        }
    }
    let mut copied: Vec<Op> = Vec::new();
    let mut i: usize = 0;
    while i < ops.len()
        invariant
            i <= ops@.len(),
            copied@ == ops@.take(i as int),
        decreases ops@.len() - i,
    {
        copied.push(copy_op(&ops[i]));
        assert(copied@ =~= ops@.take(i + 1));
        i = i + 1;
    }
    assert(ops@.take(ops@.len() as int) =~= ops@);
    let plan = Plan { id: new_id(), ops: copied, steps };
    assert(gathered_from(gathered_views(gathered@), ops@));
    Ok(plan)
}

// ---------------------------------------------------------------------------
// Notices
// ---------------------------------------------------------------------------

/// The pacman packages the operations update one by one.
pub open spec fn chosen_ids(ops: Seq<Op>) -> Seq<Seq<char>>
    decreases ops.len(),
{
    if ops.len() == 0 {
        Seq::empty()
    } else {
        chosen_ids(ops.drop_last()) + match ops.last() {
            Op::Update { package } => if package.source == SourceKind::Pacman {
                seq![package.id@]
            } else {
                Seq::empty()
            },
            _ => Seq::empty(),
        }
    }
}

pub open spec fn updates_all_pacman(ops: Seq<Op>) -> bool {
    exists|i: int| 0 <= i < ops.len() && ops[i] == (Op::UpdateAll { source: SourceKind::Pacman })
}

/// Whether the pending list is known and every pending pacman update is
/// among the chosen ones.
pub open spec fn complete(pending: Option<Seq<Update>>, chosen: Seq<Seq<char>>) -> bool {
    match pending {
        Some(p) => p.len() > 0 && forall|i: int| 0 <= i < p.len() ==> chosen.contains(#[trigger] p[i].package.id@),
        None => false,
    }
}

/// Whether a plan is a partial pacman upgrade: it updates some pacman
/// packages one by one, not all of them at once, and the pending list is
/// unknown or holds one it leaves out.
pub open spec fn partial_upgrade(ops: Seq<Op>, pending: Option<Seq<Update>>) -> bool {
    chosen_ids(ops).len() > 0 && !updates_all_pacman(ops) && !complete(pending, chosen_ids(ops))
}

pub open spec fn updates_view(p: Option<Vec<Update>>) -> Option<Seq<Update>> {
    match p {
        Some(v) => Some(v@),
        None => None,
    }
}

fn chosen_exec(ops: &[Op]) -> (r: Vec<String>)
    ensures
        strings_view(r@) == chosen_ids(ops@),
{
    let mut r: Vec<String> = Vec::new();
    let mut i: usize = 0;
    while i < ops.len()
        invariant
            i <= ops@.len(),
            strings_view(r@) == chosen_ids(ops@.take(i as int)),
        decreases ops@.len() - i,
    {
        assert(ops@.take(i + 1).drop_last() =~= ops@.take(i as int));
        assert(ops@.take(i + 1).last() == ops@[i as int]);
        let ghost before = strings_view(r@);
        match &ops[i] {
            Op::Update { package } => {
                if package.source == SourceKind::Pacman {
                    r.push(package.id.clone());
                    assert(strings_view(r@) =~= before + seq![package.id@]);
                } else {
                    assert(strings_view(r@) =~= before + Seq::<Seq<char>>::empty());
                }
            },
            _ => {
                assert(strings_view(r@) =~= before + Seq::<Seq<char>>::empty());
            },
        }
        i = i + 1;
    }
    assert(ops@.take(ops@.len() as int) =~= ops@);
    r
}

/// The notices for a plan, given the pacman source's pending updates where
/// they could be read: the partial-upgrade sentence when the plan is a
/// partial pacman upgrade, else nothing.
pub fn partial_notices(ops: &[Op], pending: Option<Vec<Update>>) -> (r: Vec<String>)
    ensures
        partial_upgrade(ops@, updates_view(pending)) ==> r@.len() == 1 && r@[0]@
            == partial_upgrade_notice(),
        !partial_upgrade(ops@, updates_view(pending)) ==> r@.len() == 0,
{
    let mut notices: Vec<String> = Vec::new();
    let mut updates_all = false;
    let mut i: usize = 0;
    while i < ops.len()
        invariant
            i <= ops@.len(),
            updates_all == exists|j: int| 0 <= j < i && ops@[j] == (Op::UpdateAll { source: SourceKind::Pacman }),
        decreases ops@.len() - i,
    {
        match &ops[i] {
            Op::UpdateAll { source } => {
                if *source == SourceKind::Pacman {
                    updates_all = true;
                }
            },
            _ => {},
        }
        i = i + 1;
    }
    let chosen = chosen_exec(ops);
    let ghost cv = strings_view(chosen@);
    if chosen.len() > 0 && !updates_all {
        let is_complete = match &pending {
            Some(p) => {
                let mut all_in = p.len() > 0;
                let mut k: usize = 0;
                while k < p.len() && all_in
                    invariant
                        cv == strings_view(chosen@),
                        k <= p@.len(),
                        all_in ==> p@.len() > 0 && forall|x: int| 0 <= x < k ==> cv.contains(#[trigger] p@[x].package.id@),
                        !all_in ==> !complete(Some(p@), cv),
                    decreases p@.len() - k,
                {
                    let mut found = false;
                    let mut j: usize = 0;
                    while j < chosen.len() && !found
                        invariant
                            cv == strings_view(chosen@),
                            k < p@.len(),
                            cv.len() == chosen@.len(),
                            j <= chosen@.len(),
                            found ==> cv.contains(p@[k as int].package.id@),
                            !found ==> forall|x: int| 0 <= x < j ==> cv[x] != p@[k as int].package.id@,
                        decreases chosen@.len() - j,
                    {
                        if chosen[j] == p[k].package.id {
                            assert(cv[j as int] == p@[k as int].package.id@);
                            found = true;
                        }
                        j = j + 1;
                    }
                    if !found {
                        assert(!cv.contains(p@[k as int].package.id@));
                        assert(!complete(Some(p@), cv));
                        all_in = false;
                    }
                    k = k + 1;
                }
                all_in
            },
            None => false,
        };
        if !is_complete {
            notices.push(text::string_from(PARTIAL_UPGRADE_NOTICE));
            proof {
                reveal_strlit(
                    "Arch does not support partial upgrades. Updating only some packages can break others; Update all is the safe choice.",
                );
            }
        }
    }
    notices
}

/// What the page should say beside a plan before it runs: the partial
/// upgrade sentence when the plan updates some pacman packages but not all
/// of them, or when the pending list cannot be read.
pub fn notices(store: &crate::store::Store, ops: &[Op]) -> (r: Vec<String>)
    ensures
        r@.len() <= 1,
        r@.len() == 1 ==> r@[0]@ == partial_upgrade_notice() && partial_upgrade(ops@, None),
        chosen_ids(ops@).len() == 0 || updates_all_pacman(ops@) ==> r@.len() == 0,
        !crate::store::has_kind(store.sources@, SourceKind::Pacman) ==> (r@.len() == 1 <==> partial_upgrade(
            ops@,
            None,
        )),
        crate::store::has_kind(store.sources@, SourceKind::Pacman) ==> exists|u: Result<Vec<Update>, Error>|
            store.sources@[crate::store::first_index(store.sources@, SourceKind::Pacman)].updates_answer(u) && (
            r@.len() == 1 <==> partial_upgrade(ops@, pending_of(u))),
{
    let ghost mut asked: Option<Result<Vec<Update>, Error>> = None;
    let pending = match store.source(SourceKind::Pacman) {
        Some(s) => {
            let u = s.updates();
            proof {
                asked = Some(u);
            }
            match u {
                Ok(u) => Some(u),
                Err(_) => None,
            }
        },
        None => None,
    };
    let r = partial_notices(ops, pending);
    proof {
        if crate::store::has_kind(store.sources@, SourceKind::Pacman) {
            let u = asked->Some_0;
            assert(updates_view(pending) == pending_of(u));
        }
    }
    r
}

/// What the pacman source's answer says of its pending updates: the list,
/// or nothing known where it could not say.
pub open spec fn pending_of(u: Result<Vec<Update>, Error>) -> Option<Seq<Update>> {
    match u {
        Ok(v) => Some(v@),
        Err(_) => None,
    }
}

} // verus!
