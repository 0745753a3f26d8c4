//! Character-level helpers on paths: containment by whole segments, final
//! component, and the mirrored location of a path under a destination.
use vstd::prelude::*;
use vstd::std_specs::iter::IteratorSpec;

verus! {

/// The characters of a string, in order.
pub(crate) fn chars_of(s: &str) -> (r: Vec<char>)
    ensures
        r@ == s@,
{
    broadcast use vstd::string::axiom_spec_iter, vstd::string::next_postcondition;

    let mut it = s.chars();
    let mut out: Vec<char> = Vec::new();
    loop
        invariant
            out@ + it.remaining() == s@,
            it.decrease() is Some,
        ensures
            out@ == s@,
        decreases it.decrease()->0,
    {
        let ghost before = it.remaining();
        match it.next() {
            Some(c) => {
                out.push(c);
                assert(out@ + it.remaining() =~= s@) by {
                    assert(before =~= seq![c] + before.drop_first());
                }
            },
            None => {
                assert(out@ =~= s@);
                break;
            },
        }
    }
    out
}

/// Relies on `String::from_iter` over a slice of characters: a string of exactly those characters.
#[verifier::external_body]
pub(crate) fn string_of(cs: &[char]) -> (r: String)
    ensures
        r@ == cs@,
{
    String::from_iter(cs.iter())
}

/// `p` is `base` itself or lies below it, separated by a `/` at a segment boundary.
pub open spec fn is_within(p: Seq<char>, base: Seq<char>) -> bool {
    p == base || (base.len() < p.len() && p.subrange(0, base.len() as int) == base
        && p[base.len() as int] == '/')
}

/// The path without trailing `/`, except that a path of separators alone keeps one.
pub open spec fn trim_trailing(p: Seq<char>) -> Seq<char>
    decreases p.len(),
{
    if p.len() > 1 && p.last() == '/' {
        trim_trailing(p.drop_last())
    } else {
        p
    }
}

/// Index at which the final path component starts.
pub open spec fn name_start(p: Seq<char>) -> int
    decreases p.len(),
{
    if p.len() == 0 {
        0
    } else if p.last() == '/' {
        p.len() as int
    } else {
        name_start(p.drop_last())
    }
}

/// The final path component: the characters after the last `/`.
pub open spec fn basename(p: Seq<char>) -> Seq<char> {
    p.subrange(name_start(p), p.len() as int)
}

/// Where `p`, lying within `root`, lands when `root` is mirrored under `dest`:
/// `dest/<basename(root)>` followed by the part of `p` below `root`.
pub open spec fn mirror_path(p: Seq<char>, root: Seq<char>, dest: Seq<char>) -> Seq<char> {
    dest + seq!['/'] + basename(root) + p.subrange(root.len() as int, p.len() as int)
}

proof fn lemma_name_start_prefix(p: Seq<char>, i: int)
    requires
        0 <= i <= p.len(),
        forall|j: int| i <= j < p.len() ==> p[j] != '/',
    ensures
        name_start(p) == name_start(p.subrange(0, i)),
    decreases p.len() - i,
{
    if i == p.len() {
        assert(p.subrange(0, i) =~= p);
    } else {
        assert(p.drop_last().subrange(0, i) =~= p.subrange(0, i));
        lemma_name_start_prefix(p.drop_last(), i);
    }
}

pub(crate) fn within_chars(p: &Vec<char>, base: &Vec<char>) -> (r: bool)
    ensures
        r == is_within(p@, base@),
{
    if p.len() < base.len() {
        return false;
    }
    let mut i: usize = 0;
    while i < base.len()
        invariant
            base.len() <= p.len(),
            i <= base.len(),
            forall|j: int| 0 <= j < i ==> p@[j] == base@[j],
        decreases base.len() - i,
    {
        if p[i] != base[i] {
            assert(p@.subrange(0, base.len() as int)[i as int] != base@[i as int]);
            return false;
        }
        i = i + 1;
    }
    assert(p@.subrange(0, base.len() as int) =~= base@);
    if p.len() == base.len() {
        assert(p@ =~= base@);
        true
    } else {
        p[base.len()] == '/'
    }
}

/// Whether the path `p` is `base` or lies below it, segment by segment.
pub fn within(p: &str, base: &str) -> (r: bool)
    ensures
        r == is_within(p@, base@),
{
    let pc = chars_of(p);
    let bc = chars_of(base);
    within_chars(&pc, &bc)
}

pub(crate) fn name_start_of(p: &Vec<char>) -> (r: usize)
    ensures
        r == name_start(p@),
        r <= p@.len(),
{
    let mut i: usize = p.len();
    while i > 0 && p[i - 1] != '/'
        invariant
            i <= p.len(),
            forall|j: int| i <= j < p.len() ==> p@[j] != '/',
        decreases i,
    {
        i = i - 1;
    }
    proof {
        lemma_name_start_prefix(p@, i as int);
        if i > 0 {
            assert(p@.subrange(0, i as int).last() == '/');
        }
    }
    i
}

/// The length of `p` once its trailing separators are dropped.
pub(crate) fn trimmed_len(p: &Vec<char>) -> (r: usize)
    ensures
        r <= p.len(),
        p@.subrange(0, r as int) == trim_trailing(p@),
{
    let mut k: usize = p.len();
    assert(p@.subrange(0, k as int) =~= p@);
    while k > 1 && p[k - 1] == '/'
        invariant
            k <= p.len(),
            trim_trailing(p@.subrange(0, k as int)) == trim_trailing(p@),
        decreases k,
    {
        assert(p@.subrange(0, k as int).drop_last() =~= p@.subrange(0, k - 1));
        k = k - 1;
    }
    k
}

/// `p` without its trailing separators.
pub(crate) fn trimmed(p: &Vec<char>) -> (r: Vec<char>)
    ensures
        r@ == trim_trailing(p@),
{
    let k = trimmed_len(p);
    let mut out: Vec<char> = Vec::new();
    push_range(&mut out, p, 0, k);
    out
}

/// Appends `src[from..to]` to `out`.
pub(crate) fn push_range(out: &mut Vec<char>, src: &Vec<char>, from: usize, to: usize)
    requires
        from <= to <= src.len(),
    ensures
        final(out)@ == old(out)@ + src@.subrange(from as int, to as int),
{
    let mut i: usize = from;
    while i < to
        invariant
            from <= i <= to <= src.len(),
            out@ == old(out)@ + src@.subrange(from as int, i as int),
        decreases to - i,
    {
        out.push(src[i]);
        assert(src@.subrange(from as int, i + 1) =~= src@.subrange(from as int, i as int).push(
            src@[i as int],
        ));
        i = i + 1;
    }
}

/// The final component of a path: what follows its last `/`.
pub fn base_name(p: &str) -> (r: String)
    ensures
        r@ == basename(p@),
{
    let pc = chars_of(p);
    let k = name_start_of(&pc);
    let mut out: Vec<char> = Vec::new();
    push_range(&mut out, &pc, k, pc.len());
    assert(out@ =~= basename(p@));
    string_of(out.as_slice())
}

/// The location of `p` (within `root`) when `root` is mirrored under `dest`.
pub fn mirrored(p: &str, root: &str, dest: &str) -> (r: String)
    requires
        is_within(p@, root@),
    ensures
        r@ == mirror_path(p@, root@, dest@),
{
    let pc = chars_of(p);
    let rc = chars_of(root);
    let dc = chars_of(dest);
    let mut out: Vec<char> = Vec::new();
    push_range(&mut out, &dc, 0, dc.len());
    out.push('/');
    let k = name_start_of(&rc);
    push_range(&mut out, &rc, k, rc.len());
    push_range(&mut out, &pc, rc.len(), pc.len());
    assert(dc@.subrange(0, dc.len() as int) =~= dc@);
    assert(out@ =~= mirror_path(p@, root@, dest@));
    string_of(out.as_slice())
}

} // verus!
