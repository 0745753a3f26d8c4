//! Which paths of a root are copied, and where to: exclusion by
//! whole path segments, and the plan that mirrors a root under the destination.
use vstd::prelude::*;
use crate::config::strings_view;
use crate::config::Duplit;
use crate::resolve::{resolve, Environment};
use crate::text::{
    basename, chars_of, is_within, mirror_path, mirrored, trim_trailing, trimmed, within_chars,
};

verus! {

/// `candidate` lies within some rule that itself lies within `root`.
pub open spec fn lies_under_rule(candidate: Seq<char>, root: Seq<char>, rules: Seq<Seq<char>>) -> bool {
    exists|i: int|
        0 <= i < rules.len() && is_within(#[trigger] rules[i], root) && is_within(candidate, rules[i])
}

/// Each rule without its trailing separators.
pub open spec fn trimmed_all(rules: Seq<Seq<char>>) -> Seq<Seq<char>> {
    rules.map_values(|r: Seq<char>| trim_trailing(r))
}

/// `candidate` is excluded under `root` when some rule lies within `root` and
/// `candidate` lies within that rule, trailing separators of the root and the
/// rules aside (`/a/b/` names `/a/b`). Rules outside `root` do not apply to it.
pub open spec fn excluded_by(candidate: Seq<char>, root: Seq<char>, rules: Seq<Seq<char>>) -> bool {
    lies_under_rule(candidate, trim_trailing(root), trimmed_all(rules))
}

/// The exclude rules that resolve, in order; the others cannot name a path.
pub open spec fn resolved_rules(raw: Seq<Seq<char>>, vars: Seq<(Seq<char>, Seq<char>)>) -> Seq<
    Seq<char>,
>
    decreases raw.len(),
{
    if raw.len() == 0 {
        Seq::empty()
    } else {
        let prev = resolved_rules(raw.drop_last(), vars);
        match resolve(raw.last(), vars) {
            Ok(p) => prev.push(p),
            Err(_) => prev,
        }
    }
}

pub struct TreeEntry {
    pub path: String,
    pub is_dir: bool,
}

/// Create the directory `destination`, or copy the file `source` to `destination`.
pub struct CopyStep {
    pub source: String,
    pub destination: String,
    pub is_dir: bool,
}

impl TreeEntry {
    pub open spec fn spec_entry(&self) -> (Seq<char>, bool) {
        (self.path@, self.is_dir)
    }
}

impl CopyStep {
    pub open spec fn spec_step(&self) -> (Seq<char>, Seq<char>, bool) {
        (self.source@, self.destination@, self.is_dir)
    }
}

pub open spec fn tree_view(v: Seq<TreeEntry>) -> Seq<(Seq<char>, bool)> {
    v.map_values(|e: TreeEntry| e.spec_entry())
}

pub open spec fn steps_view(v: Seq<CopyStep>) -> Seq<(Seq<char>, Seq<char>, bool)> {
    v.map_values(|s: CopyStep| s.spec_step())
}

/// The steps that mirror the listed entries of `root` under `dest`: each entry
/// within `root` and not excluded, in order, with its mirrored location.
pub open spec fn planned(
    entries: Seq<(Seq<char>, bool)>,
    root: Seq<char>,
    dest: Seq<char>,
    rules: Seq<Seq<char>>,
) -> Seq<(Seq<char>, Seq<char>, bool)>
    decreases entries.len(),
{
    if entries.len() == 0 {
        Seq::empty()
    } else {
        let prev = planned(entries.drop_last(), root, dest, rules);
        let e = entries.last();
        if is_within(e.0, root) && !excluded_by(e.0, root, rules) {
            prev.push((e.0, mirror_path(e.0, root, dest), e.1))
        } else {
            prev
        }
    }
}

fn excluded_chars(c: &Vec<char>, root: &Vec<char>, rules: &Vec<Vec<char>>) -> (r: bool)
    ensures
        r == lies_under_rule(c@, root@, rules@.map_values(|v: Vec<char>| v@)),
{
    let ghost rv = rules@.map_values(|v: Vec<char>| v@);
    let mut i: usize = 0;
    while i < rules.len()
        invariant
            i <= rules.len(),
            rv == rules@.map_values(|v: Vec<char>| v@),
            forall|j: int| 0 <= j < i ==> !(is_within(#[trigger] rv[j], root@) && is_within(c@, rv[j])),
        decreases rules.len() - i,
    {
        if within_chars(&rules[i], root) && within_chars(c, &rules[i]) {
            assert(rv[i as int] == rules@[i as int]@);
            return true;
        }
        i = i + 1;
    }
    false
}

fn rule_chars(rules: &Vec<String>) -> (r: Vec<Vec<char>>)
    ensures
        r@.map_values(|v: Vec<char>| v@) == trimmed_all(strings_view(rules@)),
{
    let mut out: Vec<Vec<char>> = Vec::new();
    let mut i: usize = 0;
    while i < rules.len()
        invariant
            i <= rules.len(),
            out.len() == i,
            forall|j: int| 0 <= j < i ==> #[trigger] out@[j]@ == trim_trailing(rules@[j]@),
        decreases rules.len() - i,
    {
        let rc = chars_of(rules[i].as_str());
        out.push(trimmed(&rc));
        i = i + 1;
    }
    assert(out@.map_values(|v: Vec<char>| v@) =~= trimmed_all(strings_view(rules@)));
    out
}

/// Whether `candidate` is excluded under `root` by the resolved `rules`.
pub fn is_excluded(candidate: &str, root: &str, rules: &Vec<String>) -> (r: bool)
    ensures
        r == excluded_by(candidate@, root@, strings_view(rules@)),
{
    let c = chars_of(candidate);
    let rt = chars_of(root);
    let rtt = trimmed(&rt);
    let rc = rule_chars(rules);
    excluded_chars(&c, &rtt, &rc)
}

/// Resolves the exclude rules, keeping those that resolve, in order.
pub fn resolve_rules(rules: &Vec<String>, env: &Environment) -> (r: Vec<String>)
    ensures
        strings_view(r@) == resolved_rules(strings_view(rules@), env.spec_vars()),
{
    let mut out: Vec<String> = Vec::new();
    let mut i: usize = 0;
    while i < rules.len()
        invariant
            i <= rules.len(),
            strings_view(out@) == resolved_rules(strings_view(rules@.subrange(0, i as int)), env.spec_vars()),
        decreases rules.len() - i,
    {
        assert(strings_view(rules@.subrange(0, i + 1)).drop_last() =~= strings_view(rules@.subrange(0, i as int)));
        match Duplit::expand_path(rules[i].as_str(), env) {
            Ok(p) => {
                out.push(p);
                assert(strings_view(out@) =~= resolved_rules(strings_view(rules@.subrange(0, i + 1)), env.spec_vars()));
            },
            Err(_) => {},
        }
        i = i + 1;
    }
    assert(rules@.subrange(0, rules.len() as int) =~= rules@);
    out
}

/// The single step that copies the file `root` to `dest/<basename(root)>`.
pub fn plan_file(root: &str, dest: &str) -> (r: CopyStep)
    ensures
        r.spec_step() == (root@, mirror_path(root@, root@, dest@), false),
        r.destination@ == dest@ + seq!['/'] + basename(root@),
{
    let destination = mirrored(root, root, dest);
    assert(root@.subrange(root@.len() as int, root@.len() as int) =~= Seq::<char>::empty());
    assert(mirror_path(root@, root@, dest@) =~= dest@ + seq!['/'] + basename(root@));
    CopyStep { source: String::from_str(root), destination, is_dir: false }
}

/// The steps that mirror the directory `root` under `dest`: `root` itself, then
/// the listed entries, each kept only if it lies within `root` and no resolved
/// rule excludes it.
pub fn plan_directory(root: &str, dest: &str, entries: &Vec<TreeEntry>, rules: &Vec<String>) -> (r: Vec<CopyStep>)
    ensures
        steps_view(r@) == planned(seq![(root@, true)] + tree_view(entries@), root@, dest@, strings_view(rules@)),
{
    let ghost rv = strings_view(rules@);
    let ghost all = seq![(root@, true)] + tree_view(entries@);
    let rt = chars_of(root);
    let rtt = trimmed(&rt);
    let rc = rule_chars(rules);
    let mut out: Vec<CopyStep> = Vec::new();
    assert(all.subrange(0, 1).drop_last() =~= all.subrange(0, 0));
    assert(planned(all.subrange(0, 0), root@, dest@, rv) =~= Seq::empty());
    assert(all.subrange(0, 1).last() == (root@, true));
    assert(is_within(root@, root@));
    if !excluded_chars(&rt, &rtt, &rc) {
        out.push(CopyStep { source: String::from_str(root), destination: mirrored(root, root, dest), is_dir: true });
        assert(steps_view(out@) =~= planned(all.subrange(0, 1), root@, dest@, rv));
    } else {
        assert(steps_view(out@) =~= planned(all.subrange(0, 1), root@, dest@, rv));
    }
    let mut i: usize = 0;
    while i < entries.len()
        invariant
            i <= entries.len(),
            rv == strings_view(rules@),
            trimmed_all(rv) == rc@.map_values(|v: Vec<char>| v@),
            rt@ == root@,
            rtt@ == trim_trailing(root@),
            all == seq![(root@, true)] + tree_view(entries@),
            steps_view(out@) == planned(all.subrange(0, i + 1), root@, dest@, rv),
        decreases entries.len() - i,
    {
        let ghost pre = all.subrange(0, i + 2);
        assert(pre.drop_last() =~= all.subrange(0, i + 1));
        assert(pre.last() == entries@[i as int].spec_entry());
        let pc = chars_of(entries[i].path.as_str());
        if within_chars(&pc, &rt) && !excluded_chars(&pc, &rtt, &rc) {
            let destination = mirrored(entries[i].path.as_str(), root, dest);
            out.push(CopyStep {
                source: entries[i].path.clone(),
                destination,
                is_dir: entries[i].is_dir,
            });
            assert(steps_view(out@) =~= planned(pre, root@, dest@, rv));
        }
        i = i + 1;
    }
    assert(all.subrange(0, entries.len() + 1) =~= all);
    out
}

/// No planned step lies within an exclude rule that lies within the root
/// (trailing separators aside).
pub proof fn lemma_excluded_never_planned(
    entries: Seq<(Seq<char>, bool)>,
    root: Seq<char>,
    dest: Seq<char>,
    rules: Seq<Seq<char>>,
    k: int,
    i: int,
)
    requires
        0 <= k < planned(entries, root, dest, rules).len(),
        0 <= i < rules.len(),
        is_within(trim_trailing(rules[i]), trim_trailing(root)),
    ensures
        !is_within(planned(entries, root, dest, rules)[k].0, trim_trailing(rules[i])),
        planned(entries, root, dest, rules)[k].1 == mirror_path(planned(entries, root, dest, rules)[k].0, root, dest),
        is_within(planned(entries, root, dest, rules)[k].0, root),
    decreases entries.len(),
{
    let prev = planned(entries.drop_last(), root, dest, rules);
    assert(trimmed_all(rules)[i] == trim_trailing(rules[i]));
    if k < prev.len() {
        lemma_excluded_never_planned(entries.drop_last(), root, dest, rules, k, i);
    }
}

/// Distinct paths within a root land on distinct destinations.
pub proof fn lemma_mirror_injective(p: Seq<char>, q: Seq<char>, root: Seq<char>, dest: Seq<char>)
    requires
        is_within(p, root),
        is_within(q, root),
        mirror_path(p, root, dest) == mirror_path(q, root, dest),
    ensures
        p == q,
{
    let head = dest + seq!['/'] + basename(root);
    let sp = p.subrange(root.len() as int, p.len() as int);
    let sq = q.subrange(root.len() as int, q.len() as int);
    assert((head + sp).subrange(head.len() as int, (head + sp).len() as int) =~= sp);
    assert((head + sq).subrange(head.len() as int, (head + sq).len() as int) =~= sq);
    assert(sp == sq);
    assert(p =~= root + sp);
    assert(q =~= root + sq);
}

/// Every listed entry that lies within the root and that no rule excludes is
/// planned, with its mirrored destination and its kind.
pub proof fn lemma_kept_entries_planned(
    entries: Seq<(Seq<char>, bool)>,
    root: Seq<char>,
    dest: Seq<char>,
    rules: Seq<Seq<char>>,
    j: int,
)
    requires
        0 <= j < entries.len(),
        is_within(entries[j].0, root),
        !excluded_by(entries[j].0, root, rules),
    ensures
        exists|k: int|
            0 <= k < planned(entries, root, dest, rules).len() && planned(entries, root, dest, rules)[k]
                == (entries[j].0, mirror_path(entries[j].0, root, dest), entries[j].1),
    decreases entries.len(),
{
    let prev = planned(entries.drop_last(), root, dest, rules);
    let all = planned(entries, root, dest, rules);
    let step = (entries[j].0, mirror_path(entries[j].0, root, dest), entries[j].1);
    if j == entries.len() - 1 {
        assert(all[prev.len() as int] == step);
    } else {
        lemma_kept_entries_planned(entries.drop_last(), root, dest, rules, j);
        let k = choose|k: int| 0 <= k < prev.len() && prev[k] == step;
        assert(all[k] == prev[k]);
    }
}

} // verus!
