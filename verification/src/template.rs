//! Secret-template substitution: replaces `{name}` tokens in a string with
//! values from an ordered key/value lookup, failing fast on an unresolved
//! or unterminated token. The generated bootstrap routine relies on its
//! runtime collaborator for the same service; this function is the
//! library's own statement of that behaviour, usable and testable on its
//! own.

use vstd::prelude::*;
use crate::level::str_eq;

verus! {

/// Why a substitution failed.
#[derive(Debug, Clone)]
pub enum SubstError {
    /// A `{` token is never closed by `}`.
    MissingBrace,
    /// A `{name}` token names no key of the lookup; carries the name.
    UnknownKey(String),
}

/// The key/value list as a mathematical value.
pub open spec fn pairs_view(vars: Seq<(String, String)>) -> Seq<(Seq<char>, Seq<char>)> {
    vars.map_values(|p: (String, String)| (p.0@, p.1@))
}

/// First-match lookup in an ordered key/value list.
pub open spec fn lookup(pairs: Seq<(Seq<char>, Seq<char>)>, key: Seq<char>) -> Option<Seq<char>>
    decreases pairs.len(),
{
    if pairs.len() == 0 {
        None
    } else if pairs[0].0 == key {
        Some(pairs[0].1)
    } else {
        lookup(pairs.drop_first(), key)
    }
}

/// The substituted text, or `None` exactly when a `{` is unterminated or a
/// named key is absent from the lookup. Ordinary characters pass through
/// unchanged.
pub open spec fn spec_substitute(s: Seq<char>, pairs: Seq<(Seq<char>, Seq<char>)>) -> Option<
    Seq<char>,
>
    decreases s.len(), 1int,
{
    if s.len() == 0 {
        Some(Seq::empty())
    } else if s[0] == '{' {
        spec_subst_key(s.drop_first(), pairs, Seq::empty())
    } else {
        match spec_substitute(s.drop_first(), pairs) {
            Some(rest) => Some(seq![s[0]] + rest),
            None => None,
        }
    }
}

/// Inside a `{name}` token: accumulates the key up to the closing brace,
/// then resolves it and substitutes the remainder.
pub open spec fn spec_subst_key(
    s: Seq<char>,
    pairs: Seq<(Seq<char>, Seq<char>)>,
    key: Seq<char>,
) -> Option<Seq<char>>
    decreases s.len(), 0int,
{
    if s.len() == 0 {
        None
    } else if s[0] == '}' {
        match lookup(pairs, key) {
            None => None,
            Some(v) => match spec_substitute(s.drop_first(), pairs) {
                Some(rest) => Some(v + rest),
                None => None,
            },
        }
    } else {
        spec_subst_key(s.drop_first(), pairs, key.push(s[0]))
    }
}

/// A brace-free run passes through substitution verbatim.
proof fn lemma_subst_literal_run(
    s: Seq<char>,
    pairs: Seq<(Seq<char>, Seq<char>)>,
    i: int,
    j: int,
)
    requires
        0 <= i <= j <= s.len(),
        forall|k: int| i <= k < j ==> #[trigger] s[k] != '{',
    ensures
        match spec_substitute(s.skip(j), pairs) {
            Some(r) => spec_substitute(s.skip(i), pairs) == Some(s.subrange(i, j) + r),
            None => spec_substitute(s.skip(i), pairs) is None,
        },
    decreases j - i,
{
    if i == j {
        if spec_substitute(s.skip(j), pairs) is Some {
            let r = spec_substitute(s.skip(j), pairs)->Some_0;
            assert(s.subrange(i, j) + r =~= r);
        }
    } else {
        lemma_subst_literal_run(s, pairs, i + 1, j);
        assert(s.skip(i)[0] == s[i]);
        assert(s.skip(i).drop_first() =~= s.skip(i + 1));
        if spec_substitute(s.skip(j), pairs) is Some {
            let r = spec_substitute(s.skip(j), pairs)->Some_0;
            assert(seq![s[i]] + (s.subrange(i + 1, j) + r) =~= s.subrange(i, j) + r);
        }
    }
}

/// A brace-free run inside a token accumulates onto the key unchanged.
proof fn lemma_subst_key_run(
    s: Seq<char>,
    pairs: Seq<(Seq<char>, Seq<char>)>,
    i: int,
    j: int,
    acc: Seq<char>,
)
    requires
        0 <= i <= j <= s.len(),
        forall|k: int| i <= k < j ==> #[trigger] s[k] != '}',
    ensures
        spec_subst_key(s.skip(i), pairs, acc) == spec_subst_key(
            s.skip(j),
            pairs,
            acc + s.subrange(i, j),
        ),
    decreases j - i,
{
    if i == j {
        assert(acc + s.subrange(i, i) =~= acc);
    } else {
        lemma_subst_key_run(s, pairs, i + 1, j, acc.push(s[i]));
        assert(s.skip(i)[0] == s[i]);
        assert(s.skip(i).drop_first() =~= s.skip(i + 1));
        assert(acc.push(s[i]) + s.subrange(i + 1, j) =~= acc + s.subrange(i, j));
    }
}

/// A token that never closes fails the whole substitution.
proof fn lemma_subst_key_unterminated(
    s: Seq<char>,
    pairs: Seq<(Seq<char>, Seq<char>)>,
    i: int,
    acc: Seq<char>,
)
    requires
        0 <= i <= s.len(),
        forall|k: int| i <= k < s.len() ==> #[trigger] s[k] != '}',
    ensures
        spec_subst_key(s.skip(i), pairs, acc) is None,
    decreases s.len() - i,
{
    if i < s.len() {
        assert(s.skip(i)[0] == s[i]);
        assert(s.skip(i).drop_first() =~= s.skip(i + 1));
        lemma_subst_key_unterminated(s, pairs, i + 1, acc.push(s[i]));
    }
}

/// Executable form of [`lookup`].
fn lookup_exec(vars: &Vec<(String, String)>, key: &str) -> (r: Option<String>)
    ensures
        match r {
            Some(v) => lookup(pairs_view(vars@), key@) == Some(v@),
            None => lookup(pairs_view(vars@), key@) is None,
        },
{
    let ghost pv = pairs_view(vars@);
    let n = vars.len();
    let mut i: usize = 0;
    proof {
        assert(pv.skip(0) =~= pv);
    }
    while i < n
        invariant
            n == vars.len(),
            i <= n,
            pv == pairs_view(vars@),
            lookup(pv, key@) == lookup(pv.skip(i as int), key@),
        decreases n - i,
    {
        proof {
            assert(pv[i as int] == (vars@[i as int].0@, vars@[i as int].1@));
            assert(pv.skip(i as int)[0] == pv[i as int]);
            assert(pv.skip(i as int).drop_first() =~= pv.skip(i + 1 as int));
        }
        if str_eq(vars[i].0.as_str(), key) {
            return Some(vars[i].1.clone());
        }
        i = i + 1;
    }
    proof {
        assert(pv.skip(n as int) =~= Seq::<(Seq<char>, Seq<char>)>::empty());
    }
    None
}

/// Replaces every `{name}` token in `template` with the value of `name` in
/// `vars`, fail-fast: executable form of [`spec_substitute`]. Fails exactly
/// when a token is unterminated or names an absent key.
pub fn substitute(template: &str, vars: &Vec<(String, String)>) -> (r: Result<String, SubstError>)
    ensures
        match r {
            Ok(out) => spec_substitute(template@, pairs_view(vars@)) == Some(out@),
            Err(_) => spec_substitute(template@, pairs_view(vars@)) is None,
        },
{
    let ghost t = template@;
    let ghost pv = pairs_view(vars@);
    let n: usize = template.unicode_len();
    let mut out = String::new();
    let mut i: usize = 0;
    proof {
        assert(t.skip(0) =~= t);
    }
    while i < n
        invariant
            n == t.len(),
            t == template@,
            pv == pairs_view(vars@),
            i <= n,
            match spec_substitute(t.skip(i as int), pv) {
                Some(r2) => spec_substitute(t, pv) == Some(out@ + r2),
                None => spec_substitute(t, pv) is None,
            },
        decreases n - i,
    {
        let mut j: usize = i;
        while j < n && template.get_char(j) != '{'
            invariant
                i <= j <= n,
                n == t.len(),
                t == template@,
                forall|k: int| i <= k < j ==> #[trigger] t[k] != '{',
            decreases n - j,
        {
            j = j + 1;
        }
        let ghost prev = out@;
        if j > i {
            let run = template.substring_char(i, j);
            out.append(run);
        }
        proof {
            lemma_subst_literal_run(t, pv, i as int, j as int);
            assert(out@ =~= prev + t.subrange(i as int, j as int));
            if spec_substitute(t.skip(j as int), pv) is Some {
                let r2 = spec_substitute(t.skip(j as int), pv)->Some_0;
                assert(prev + (t.subrange(i as int, j as int) + r2) =~= out@ + r2);
            }
        }
        if j >= n {
            i = j;
        } else {
            // t[j] == '{': scan the key up to the closing brace
            let mut k: usize = j + 1;
            while k < n && template.get_char(k) != '}'
                invariant
                    j + 1 <= k <= n,
                    n == t.len(),
                    t == template@,
                    forall|m: int| j + 1 <= m < k ==> #[trigger] t[m] != '}',
                decreases n - k,
            {
                k = k + 1;
            }
            proof {
                assert(t.skip(j as int)[0] == t[j as int]);
                assert(t.skip(j as int).drop_first() =~= t.skip(j + 1 as int));
            }
            if k >= n {
                proof {
                    lemma_subst_key_unterminated(t, pv, j + 1 as int, Seq::empty());
                }
                return Err(SubstError::MissingBrace);
            }
            let key = template.substring_char(j + 1, k);
            proof {
                lemma_subst_key_run(t, pv, j + 1 as int, k as int, Seq::empty());
                assert(Seq::<char>::empty() + t.subrange(j + 1 as int, k as int) =~= t.subrange(
                    j + 1 as int,
                    k as int,
                ));
                assert(t.skip(k as int)[0] == t[k as int]);
                assert(t.skip(k as int).drop_first() =~= t.skip(k + 1 as int));
            }
            match lookup_exec(vars, key) {
                None => {
                    return Err(SubstError::UnknownKey(String::from_str(key)));
                },
                Some(v) => {
                    let ghost mid = out@;
                    out.append(v.as_str());
                    proof {
                        if spec_substitute(t.skip(k + 1 as int), pv) is Some {
                            let r2 = spec_substitute(t.skip(k + 1 as int), pv)->Some_0;
                            assert(mid + (v@ + r2) =~= out@ + r2);
                        }
                    }
                    i = k + 1;
                },
            }
        }
    }
    proof {
        assert(t.skip(n as int) =~= Seq::<char>::empty());
        assert(out@ + Seq::<char>::empty() =~= out@);
    }
    Ok(out)
}

} // verus!
