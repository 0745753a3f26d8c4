//! Expansion of `~` and of `$NAME` / `${NAME}` references in configured paths,
//! against an environment handed in by the caller.
use vstd::prelude::*;
use crate::config::Duplit;
use crate::text::{chars_of, push_range, string_of};

verus! {

/// Named values that paths may refer to. A later entry for a name overrides an earlier one.
pub struct Environment {
    pub vars: Vec<(String, String)>,
}

/// A path referred to a variable that the environment does not define
/// (`HOME` for a leading `~`).
pub struct PathResolutionError {
    pub variable: String,
}

pub open spec fn vars_view(vars: Seq<(String, String)>) -> Seq<(Seq<char>, Seq<char>)> {
    vars.map_values(|p: (String, String)| (p.0@, p.1@))
}

/// The value of `name`: that of its last entry.
pub open spec fn lookup(vars: Seq<(Seq<char>, Seq<char>)>, name: Seq<char>) -> Option<Seq<char>>
    decreases vars.len(),
{
    if vars.len() == 0 {
        None
    } else if vars.last().0 == name {
        Some(vars.last().1)
    } else {
        lookup(vars.drop_last(), name)
    }
}

pub open spec fn is_name_char(c: char) -> bool {
    ('a' <= c && c <= 'z') || ('A' <= c && c <= 'Z') || ('0' <= c && c <= '9') || c == '_'
}

/// End of the run of name characters that starts at `j`.
pub open spec fn name_end(s: Seq<char>, j: int) -> int
    decreases s.len() - j,
{
    if 0 <= j < s.len() && is_name_char(s[j]) {
        name_end(s, j + 1)
    } else {
        j
    }
}

/// Index of the first `}` at or after `j`, or the length if there is none.
pub open spec fn brace_end(s: Seq<char>, j: int) -> int
    decreases s.len() - j,
{
    if 0 <= j < s.len() && s[j] != '}' {
        brace_end(s, j + 1)
    } else {
        j
    }
}

proof fn lemma_name_end_bounds(s: Seq<char>, j: int)
    ensures
        j <= name_end(s, j),
        0 <= j <= s.len() ==> name_end(s, j) <= s.len(),
    decreases s.len() - j,
{
    if 0 <= j < s.len() && is_name_char(s[j]) {
        lemma_name_end_bounds(s, j + 1);
    }
}

proof fn lemma_brace_end_bounds(s: Seq<char>, j: int)
    ensures
        j <= brace_end(s, j),
        0 <= j <= s.len() ==> brace_end(s, j) <= s.len(),
    decreases s.len() - j,
{
    if 0 <= j < s.len() && s[j] != '}' {
        lemma_brace_end_bounds(s, j + 1);
    }
}

/// Expansion of the references in `s` from index `i` on; on failure, the
/// first undefined name.
pub open spec fn expand_from(s: Seq<char>, vars: Seq<(Seq<char>, Seq<char>)>, i: int) -> Result<
    Seq<char>,
    Seq<char>,
>
    decreases s.len() - i,
    via expand_from_decreases
{
    if i < 0 || i >= s.len() {
        Ok(Seq::empty())
    } else if s[i] == '$' && i + 1 < s.len() && s[i + 1] == '{' && brace_end(s, i + 2) < s.len() {
        let e = brace_end(s, i + 2);
        let name = s.subrange(i + 2, e);
        match lookup(vars, name) {
            None => Err(name),
            Some(v) => match expand_from(s, vars, e + 1) {
                Ok(rest) => Ok(v + rest),
                Err(n) => Err(n),
            },
        }
    } else if s[i] == '$' && name_end(s, i + 1) > i + 1 {
        let e = name_end(s, i + 1);
        let name = s.subrange(i + 1, e);
        match lookup(vars, name) {
            None => Err(name),
            Some(v) => match expand_from(s, vars, e) {
                Ok(rest) => Ok(v + rest),
                Err(n) => Err(n),
            },
        }
    } else {
        match expand_from(s, vars, i + 1) {
            Ok(rest) => Ok(seq![s[i]] + rest),
            Err(n) => Err(n),
        }
    }
}

#[via_fn]
proof fn expand_from_decreases(s: Seq<char>, vars: Seq<(Seq<char>, Seq<char>)>, i: int) {
    lemma_brace_end_bounds(s, i + 2);
    lemma_name_end_bounds(s, i + 1);
}

pub open spec fn home_var() -> Seq<char> {
    seq!['H', 'O', 'M', 'E']
}

pub open spec fn contains_char(s: Seq<char>, c: char) -> bool {
    exists|i: int| 0 <= i < s.len() && s[i] == c
}

/// One expansion pass: a leading `~` (alone or before `/`) when the path holds a
/// `~`; otherwise the variable references when it holds a `$`; otherwise the
/// path as it stands.
pub open spec fn resolve(raw: Seq<char>, vars: Seq<(Seq<char>, Seq<char>)>) -> Result<
    Seq<char>,
    Seq<char>,
> {
    if contains_char(raw, '~') {
        if raw[0] == '~' && (raw.len() == 1 || raw[1] == '/') {
            match lookup(vars, home_var()) {
                Some(h) => Ok(h + raw.subrange(1, raw.len() as int)),
                None => Err(home_var()),
            }
        } else {
            Ok(raw)
        }
    } else if contains_char(raw, '$') {
        expand_from(raw, vars, 0)
    } else {
        Ok(raw)
    }
}

pub(crate) fn same_chars(a: &Vec<char>, b: &Vec<char>) -> (r: bool)
    ensures
        r == (a@ == b@),
{
    if a.len() != b.len() {
        return false;
    }
    let mut i: usize = 0;
    while i < a.len()
        invariant
            a.len() == b.len(),
            i <= a.len(),
            forall|j: int| 0 <= j < i ==> a@[j] == b@[j],
        decreases a.len() - i,
    {
        if a[i] != b[i] {
            return false;
        }
        i = i + 1;
    }
    assert(a@ =~= b@);
    true
}

fn name_char(c: char) -> (r: bool)
    ensures
        r == is_name_char(c),
{
    ('a' <= c && c <= 'z') || ('A' <= c && c <= 'Z') || ('0' <= c && c <= '9') || c == '_'
}

fn name_end_at(s: &Vec<char>, j: usize) -> (r: usize)
    requires
        j <= s.len(),
    ensures
        r == name_end(s@, j as int),
        j <= r <= s.len(),
{
    let mut k: usize = j;
    while k < s.len() && name_char(s[k])
        invariant
            j <= k <= s.len(),
            name_end(s@, j as int) == name_end(s@, k as int),
        decreases s.len() - k,
    {
        k = k + 1;
    }
    k
}

fn brace_end_at(s: &Vec<char>, j: usize) -> (r: usize)
    requires
        j <= s.len(),
    ensures
        r == brace_end(s@, j as int),
        j <= r <= s.len(),
{
    let mut k: usize = j;
    while k < s.len() && s[k] != '}'
        invariant
            j <= k <= s.len(),
            brace_end(s@, j as int) == brace_end(s@, k as int),
        decreases s.len() - k,
    {
        k = k + 1;
    }
    k
}

impl Environment {
    pub open spec fn spec_vars(&self) -> Seq<(Seq<char>, Seq<char>)> {
        vars_view(self.vars@)
    }

    pub fn new() -> (r: Self)
        ensures
            r.spec_vars().len() == 0,
    {
        Environment { vars: Vec::new() }
    }

    /// Defines `name` as `value`, overriding any earlier definition.
    pub fn set(&mut self, name: String, value: String)
        ensures
            final(self).spec_vars() == old(self).spec_vars().push((name@, value@)),
    {
        self.vars.push((name, value));
        assert(vars_view(self.vars@) =~= vars_view(old(self).vars@).push((name@, value@)));
    }

    fn lookup_chars(&self, name: &Vec<char>) -> (r: Option<String>)
        ensures
            match r {
                Some(v) => lookup(self.spec_vars(), name@) == Some(v@),
                None => lookup(self.spec_vars(), name@) is None,
            },
    {
        let mut i: usize = self.vars.len();
        assert(self.spec_vars().subrange(0, i as int) =~= self.spec_vars());
        while i > 0
            invariant
                i <= self.vars.len(),
                lookup(self.spec_vars(), name@) == lookup(self.spec_vars().subrange(0, i as int), name@),
            decreases i,
        {
            let key = chars_of(self.vars[i - 1].0.as_str());
            let ghost pre = self.spec_vars().subrange(0, i as int);
            assert(pre.drop_last() =~= self.spec_vars().subrange(0, i - 1));
            if same_chars(&key, name) {
                return Some(self.vars[i - 1].1.clone());
            }
            i = i - 1;
        }
        None
    }

    /// The value of `name`, if the environment defines it.
    pub fn get(&self, name: &str) -> (r: Option<String>)
        ensures
            match r {
                Some(v) => lookup(self.spec_vars(), name@) == Some(v@),
                None => lookup(self.spec_vars(), name@) is None,
            },
    {
        let n = chars_of(name);
        self.lookup_chars(&n)
    }
}

fn expand_references(s: &Vec<char>, env: &Environment) -> (r: Result<Vec<char>, Vec<char>>)
    ensures
        match r {
            Ok(v) => expand_from(s@, env.spec_vars(), 0) == Ok::<Seq<char>, Seq<char>>(v@),
            Err(n) => expand_from(s@, env.spec_vars(), 0) == Err::<Seq<char>, Seq<char>>(n@),
        },
{
    let ghost vars = env.spec_vars();
    let mut out: Vec<char> = Vec::new();
    let mut i: usize = 0;
    while i < s.len()
        invariant
            i <= s.len(),
            vars == env.spec_vars(),
            match expand_from(s@, vars, i as int) {
                Ok(rest) => expand_from(s@, vars, 0) == Ok::<Seq<char>, Seq<char>>(out@ + rest),
                Err(n) => expand_from(s@, vars, 0) == Err::<Seq<char>, Seq<char>>(n),
            },
        decreases s.len() - i,
    {
        let braced = s[i] == '$' && i + 1 < s.len() && s[i + 1] == '{';
        let b = if braced { brace_end_at(s, i + 2) } else { 0 };
        if braced && b < s.len() {
            let mut name: Vec<char> = Vec::new();
            push_range(&mut name, s, i + 2, b);
            match env.lookup_chars(&name) {
                None => { return Err(name); },
                Some(v) => {
                    let vc = chars_of(v.as_str());
                    let ghost old_out = out@;
                    push_range(&mut out, &vc, 0, vc.len());
                    assert(vc@.subrange(0, vc.len() as int) =~= vc@);
                    proof {
                        match expand_from(s@, vars, b + 1) {
                            Ok(rest) => { assert(old_out + (v@ + rest) =~= out@ + rest); },
                            Err(n) => {},
                        }
                    }
                    i = b + 1;
                },
            }
        } else {
            let e = if s[i] == '$' { name_end_at(s, i + 1) } else { i + 1 };
            if s[i] == '$' && e > i + 1 {
                let mut name: Vec<char> = Vec::new();
                push_range(&mut name, s, i + 1, e);
                match env.lookup_chars(&name) {
                    None => { return Err(name); },
                    Some(v) => {
                        let vc = chars_of(v.as_str());
                        let ghost old_out = out@;
                        push_range(&mut out, &vc, 0, vc.len());
                        assert(vc@.subrange(0, vc.len() as int) =~= vc@);
                        proof {
                            match expand_from(s@, vars, e as int) {
                                Ok(rest) => { assert(old_out + (v@ + rest) =~= out@ + rest); },
                                Err(n) => {},
                            }
                        }
                        i = e;
                    },
                }
            } else {
                let ghost old_out = out@;
                out.push(s[i]);
                proof {
                    match expand_from(s@, vars, i + 1) {
                        Ok(rest) => { assert(old_out + (seq![s@[i as int]] + rest) =~= out@ + rest); },
                        Err(n) => {},
                    }
                }
                i = i + 1;
            }
        }
    }
    assert(out@ + Seq::<char>::empty() =~= out@);
    Ok(out)
}

fn holds_char(s: &Vec<char>, c: char) -> (r: bool)
    ensures
        r == contains_char(s@, c),
{
    let mut i: usize = 0;
    while i < s.len()
        invariant
            i <= s.len(),
            forall|j: int| 0 <= j < i ==> s@[j] != c,
        decreases s.len() - i,
    {
        if s[i] == c {
            return true;
        }
        i = i + 1;
    }
    false
}

fn expand_chars(s: &Vec<char>, env: &Environment) -> (r: Result<Vec<char>, Vec<char>>)
    ensures
        match r {
            Ok(p) => resolve(s@, env.spec_vars()) == Ok::<Seq<char>, Seq<char>>(p@),
            Err(v) => resolve(s@, env.spec_vars()) == Err::<Seq<char>, Seq<char>>(v@),
        },
{
    if holds_char(s, '~') {
        if s[0] == '~' && (s.len() == 1 || s[1] == '/') {
            let home: Vec<char> = vec!['H', 'O', 'M', 'E'];
            assert(home@ =~= home_var());
            match env.lookup_chars(&home) {
                Some(h) => {
                    let mut out = chars_of(h.as_str());
                    push_range(&mut out, s, 1, s.len());
                    Ok(out)
                },
                None => Err(home),
            }
        } else {
            Ok(s.clone())
        }
    } else if holds_char(s, '$') {
        expand_references(s, env)
    } else {
        Ok(s.clone())
    }
}

impl Duplit {
    /// Expands a configured path: see [`resolve`]. On failure, names the variable
    /// that the environment lacks.
    pub fn expand_path(raw: &str, env: &Environment) -> (r: Result<String, PathResolutionError>)
        ensures
            match r {
                Ok(p) => resolve(raw@, env.spec_vars()) == Ok::<Seq<char>, Seq<char>>(p@),
                Err(e) => resolve(raw@, env.spec_vars()) == Err::<Seq<char>, Seq<char>>(e.variable@),
            },
    {
        let s = chars_of(raw);
        match expand_chars(&s, env) {
            Ok(p) => Ok(string_of(p.as_slice())),
            Err(v) => Err(PathResolutionError { variable: string_of(v.as_slice()) }),
        }
    }
}

} // verus!
