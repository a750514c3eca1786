//! The option-list grammar: a parenthesized, comma-separated list of
//! `identifier = expression` pairs attached to a resource annotation.
//!
//! Values are not evaluated here: each is retained as unevaluated expression
//! text, except that a plain string literal is singled out, because the code
//! generator treats such values specially (secret-template substitution).

use vstd::prelude::*;

verus! {

/// One option value: either a plain string literal (stored without its
/// quotes) or any other expression, kept verbatim as source text.
#[derive(Debug, Clone)]
pub enum OptionValue {
    Lit(String),
    Expr(String),
}

/// One `name = value` pair from an option list.
#[derive(Debug, Clone)]
pub struct BuilderOption {
    pub name: String,
    pub value: OptionValue,
}

/// An ordered option list, possibly empty.
#[derive(Debug, Clone)]
pub struct BuilderOptions {
    pub options: Vec<BuilderOption>,
}

/// Mathematical value of an [`OptionValue`].
#[verifier::ext_equal]
pub enum OptionValueV {
    Lit(Seq<char>),
    Expr(Seq<char>),
}

/// Mathematical value of a [`BuilderOption`].
#[verifier::ext_equal]
pub struct BuilderOptionV {
    pub name: Seq<char>,
    pub value: OptionValueV,
}

impl View for OptionValue {
    type V = OptionValueV;

    open spec fn view(&self) -> OptionValueV {
        match self {
            OptionValue::Lit(s) => OptionValueV::Lit(s@),
            OptionValue::Expr(s) => OptionValueV::Expr(s@),
        }
    }
}

impl View for BuilderOption {
    type V = BuilderOptionV;

    open spec fn view(&self) -> BuilderOptionV {
        BuilderOptionV { name: self.name@, value: self.value@ }
    }
}

impl View for BuilderOptions {
    type V = Seq<BuilderOptionV>;

    open spec fn view(&self) -> Seq<BuilderOptionV> {
        self.options@.map_values(|o: BuilderOption| o@)
    }
}

/// Why an option list was rejected.
#[derive(Debug, Clone, Copy, PartialEq, Eq, Structural)]
pub enum SyntaxErrorKind {
    /// The input does not start with an opening parenthesis.
    ExpectedGroup,
    /// An option name (an identifier) was expected.
    ExpectedName,
    /// `=` was expected after an option name.
    ExpectedEq,
    /// An option value was expected, or the value text was malformed
    /// (unbalanced delimiters or an unterminated string).
    BadValue,
    /// Input continues after the closing parenthesis.
    TrailingTokens,
}

/// A malformed option list, naming the offending position (a character
/// index into the scanned source).
#[derive(Debug, Clone, Copy)]
pub struct SyntaxError {
    pub kind: SyntaxErrorKind,
    pub at: usize,
}

pub open spec fn is_ws(c: char) -> bool {
    c == ' ' || c == '\t' || c == '\n' || c == '\r'
}

pub open spec fn is_ident_start(c: char) -> bool {
    ('a' <= c && c <= 'z') || ('A' <= c && c <= 'Z') || c == '_'
}

pub open spec fn is_ident_char(c: char) -> bool {
    is_ident_start(c) || ('0' <= c && c <= '9')
}

/// A well-formed option name: a plain identifier.
pub open spec fn is_ident(s: Seq<char>) -> bool {
    s.len() > 0 && is_ident_start(s[0]) && (forall|k: int| 0 <= k < s.len() ==> is_ident_char(
        #[trigger] s[k],
    ))
}

/// First index at or after `i` holding a non-whitespace character (or the
/// end of the input).
pub open spec fn skip_ws(s: Seq<char>, i: int) -> int
    decreases s.len() - i,
        when 0 <= i <= s.len()
{
    if i < s.len() && is_ws(s[i]) {
        skip_ws(s, i + 1)
    } else {
        i
    }
}

/// End of the identifier run starting at `i`.
pub open spec fn scan_ident(s: Seq<char>, i: int) -> int
    decreases s.len() - i,
        when 0 <= i <= s.len()
{
    if i < s.len() && is_ident_char(s[i]) {
        scan_ident(s, i + 1)
    } else {
        i
    }
}

/// Scans expression text from `i` in scanner state (`depth` open
/// delimiters, `in_str` inside a string literal), and returns the index of
/// the terminating `,` or `)` seen at depth zero outside any string, or
/// `None` when the text is malformed (unbalanced or unterminated).
pub open spec fn scan_value_at(s: Seq<char>, i: int, depth: nat, in_str: bool) -> Option<int>
    decreases s.len() - i,
        when 0 <= i <= s.len()
{
    if i >= s.len() {
        None
    } else {
        let c = s[i];
        if in_str {
            if c == '"' {
                scan_value_at(s, i + 1, depth, false)
            } else if c == '\\' {
                if i + 1 < s.len() {
                    scan_value_at(s, i + 2, depth, true)
                } else {
                    None
                }
            } else {
                scan_value_at(s, i + 1, depth, true)
            }
        } else if depth == 0 && (c == ',' || c == ')') {
            Some(i)
        } else if c == '(' || c == '[' || c == '{' {
            scan_value_at(s, i + 1, depth + 1, false)
        } else if c == ')' || c == ']' || c == '}' {
            if depth > 0 {
                scan_value_at(s, i + 1, (depth - 1) as nat, false)
            } else {
                None
            }
        } else if c == '"' {
            scan_value_at(s, i + 1, depth, true)
        } else {
            scan_value_at(s, i + 1, depth, false)
        }
    }
}

/// Largest `k` with `i <= k <= j` such that `s[k - 1]` is not whitespace
/// (used to trim trailing whitespace off a scanned value).
pub open spec fn rtrim_end(s: Seq<char>, i: int, j: int) -> int
    decreases j - i,
        when 0 <= i <= j <= s.len()
{
    if j > i && is_ws(s[j - 1]) {
        rtrim_end(s, i, j - 1)
    } else {
        j
    }
}

/// Whether `t` is exactly one plain string literal (no escapes).
pub open spec fn is_lit_text(t: Seq<char>) -> bool {
    &&& t.len() >= 2
    &&& t[0] == '"'
    &&& t[t.len() - 1] == '"'
    &&& forall|k: int| 1 <= k < t.len() - 1 ==> #[trigger] t[k] != '"' && t[k] != '\\'
}

/// Classifies scanned value text: a plain string literal keeps only its
/// content; anything else is retained verbatim.
pub open spec fn classify(t: Seq<char>) -> OptionValueV {
    if is_lit_text(t) {
        OptionValueV::Lit(t.subrange(1, t.len() - 1))
    } else {
        OptionValueV::Expr(t)
    }
}

/// Parses one `name = value` pair starting at `i`; returns the pair and the
/// index of its terminator (`,` or `)`).
pub open spec fn parse_pair(s: Seq<char>, i: int) -> Option<(BuilderOptionV, int)> {
    let n0 = skip_ws(s, i);
    let n1 = scan_ident(s, n0);
    if n1 == n0 || !is_ident_start(s[n0]) {
        None
    } else {
        let name = s.subrange(n0, n1);
        let e = skip_ws(s, n1);
        if e >= s.len() || s[e] != '=' {
            None
        } else {
            let v0 = skip_ws(s, e + 1);
            match scan_value_at(s, v0, 0, false) {
                None => None,
                Some(vend) => {
                    let t = rtrim_end(s, v0, vend);
                    if t == v0 {
                        None
                    } else {
                        Some(
                            (
                                BuilderOptionV {
                                    name,
                                    value: classify(s.subrange(v0, t)),
                                },
                                vend,
                            ),
                        )
                    }
                },
            }
        }
    }
}

/// Parses one or more pairs starting at `i`, up to and including the
/// closing parenthesis of the group; returns the pairs and the index of
/// that closing parenthesis.
pub open spec fn parse_pairs(s: Seq<char>, i: int) -> Option<(Seq<BuilderOptionV>, int)>
    decreases s.len() - i,
        when 0 <= i <= s.len()
        via parse_pairs_decreases
{
    match parse_pair(s, i) {
        None => None,
        Some((opt, term)) => {
            if term >= s.len() {
                None
            } else if s[term] == ')' {
                Some((seq![opt], term))
            } else {
                let j = skip_ws(s, term + 1);
                if j < s.len() && s[j] == ')' {
                    Some((seq![opt], j))
                } else {
                    match parse_pairs(s, term + 1) {
                        None => None,
                        Some((rest, end)) => Some((seq![opt] + rest, end)),
                    }
                }
            }
        },
    }
}

#[via_fn]
proof fn parse_pairs_decreases(s: Seq<char>, i: int) {
    if parse_pair(s, i) is Some {
        lemma_parse_pair_bounds(s, i);
    }
}

/// The whole option group: `( pair , pair , ... )`, an optional trailing
/// comma, nothing but whitespace after the closing parenthesis. `None`
/// exactly on malformed input.
pub open spec fn spec_parse_options(s: Seq<char>) -> Option<Seq<BuilderOptionV>> {
    let i0 = skip_ws(s, 0);
    if i0 >= s.len() || s[i0] != '(' {
        None
    } else {
        let j = skip_ws(s, i0 + 1);
        if j < s.len() && s[j] == ')' {
            if skip_ws(s, j + 1) == s.len() {
                Some(Seq::empty())
            } else {
                None
            }
        } else {
            match parse_pairs(s, i0 + 1) {
                None => None,
                Some((opts, end)) => {
                    if skip_ws(s, end + 1) == s.len() {
                        Some(opts)
                    } else {
                        None
                    }
                },
            }
        }
    }
}

/// The source text of one option value: a string literal regains its
/// quotes; other expression text stands verbatim.
pub open spec fn value_text(v: OptionValueV) -> Seq<char> {
    match v {
        OptionValueV::Lit(c) => seq!['"'] + c + seq!['"'],
        OptionValueV::Expr(t) => t,
    }
}

/// The source text of one `name = value` pair.
pub open spec fn ser_option(o: BuilderOptionV) -> Seq<char> {
    o.name + seq![' ', '=', ' '] + value_text(o.value)
}

/// The pairs joined by `, `, followed by the closing parenthesis.
pub open spec fn ser_tail(opts: Seq<BuilderOptionV>) -> Seq<char>
    decreases opts.len(),
{
    if opts.len() == 0 {
        seq![')']
    } else if opts.len() == 1 {
        ser_option(opts[0]) + seq![')']
    } else {
        ser_option(opts[0]) + seq![',', ' '] + ser_tail(opts.drop_first())
    }
}

/// Serialization of a whole option group, in declared order.
pub open spec fn spec_serialize(opts: Seq<BuilderOptionV>) -> Seq<char> {
    seq!['('] + ser_tail(opts)
}

proof fn lemma_lit_views()
    ensures
        "("@ == seq!['('],
        ")"@ == seq![')'],
        ", "@ == seq![',', ' '],
        " = "@ == seq![' ', '=', ' '],
        "\""@ == seq!['"'],
{
    reveal_strlit("(");
    reveal_strlit(")");
    reveal_strlit(", ");
    reveal_strlit(" = ");
    reveal_strlit("\"");
    assert("("@ =~= seq!['(']);
    assert(")"@ =~= seq![')']);
    assert(", "@ =~= seq![',', ' ']);
    assert(" = "@ =~= seq![' ', '=', ' ']);
    assert("\""@ =~= seq!['"']);
}

impl OptionValue {
    /// The source text of this value: executable form of [`value_text`].
    pub fn source_text(&self) -> (r: String)
        ensures
            r@ == value_text(self@),
    {
        proof {
            lemma_lit_views();
        }
        match self {
            OptionValue::Lit(c) => {
                let mut out = String::from_str("\"");
                out.append(c.as_str());
                out.append("\"");
                proof {
                    assert(out@ =~= value_text(self@));
                }
                out
            },
            OptionValue::Expr(t) => t.clone(),
        }
    }
}

impl BuilderOptions {
    /// Re-serializes the option group in declared order: executable form of
    /// [`spec_serialize`].
    pub fn to_source(&self) -> (r: String)
        ensures
            r@ == spec_serialize(self@),
    {
        proof {
            lemma_lit_views();
        }
        let mut out = String::from_str("(");
        let n = self.options.len();
        if n == 0 {
            out.append(")");
            proof {
                assert(out@ =~= spec_serialize(self@));
            }
            return out;
        }
        let mut i: usize = 0;
        proof {
            assert(self@.skip(0) =~= self@);
            assert(out@ =~= seq!['(']);
        }
        loop
            invariant
                n == self.options.len(),
                i < n,
                spec_serialize(self@) == out@ + ser_tail(self@.skip(i as int)),
                "("@ == seq!['('],
                ")"@ == seq![')'],
                ", "@ == seq![',', ' '],
                " = "@ == seq![' ', '=', ' '],
            decreases n - i,
        {
            proof {
                assert(self@.skip(i as int)[0] == self@[i as int]);
                assert(self@[i as int] == self.options@[i as int]@);
            }
            let o = &self.options[i];
            out.append(o.name.as_str());
            out.append(" = ");
            let vt = o.value.source_text();
            out.append(vt.as_str());
            if i + 1 < n {
                out.append(", ");
                proof {
                    assert(self@.skip(i as int).drop_first() =~= self@.skip(i + 1 as int));
                    assert(ser_tail(self@.skip(i as int)) == ser_option(self@[i as int]) + seq![
                        ',',
                        ' ',
                    ] + ser_tail(self@.skip(i + 1 as int)));
                }
                i = i + 1;
            } else {
                out.append(")");
                proof {
                    assert(self@.skip(i as int).len() == 1);
                    assert(ser_tail(self@.skip(i as int)) == ser_option(self@[i as int])
                        + seq![')']);
                    assert(out@ =~= spec_serialize(self@));
                }
                return out;
            }
        }
    }
}

pub proof fn lemma_skip_ws_bounds(s: Seq<char>, i: int)
    requires
        0 <= i <= s.len(),
    ensures
        i <= skip_ws(s, i) <= s.len(),
    decreases s.len() - i,
{
    if i < s.len() && is_ws(s[i]) {
        lemma_skip_ws_bounds(s, i + 1);
    }
}

pub proof fn lemma_scan_ident_bounds(s: Seq<char>, i: int)
    requires
        0 <= i <= s.len(),
    ensures
        i <= scan_ident(s, i) <= s.len(),
    decreases s.len() - i,
{
    if i < s.len() && is_ident_char(s[i]) {
        lemma_scan_ident_bounds(s, i + 1);
    }
}

/// A successful value scan ends inside the input, on its terminator.
pub proof fn lemma_scan_value_bounds(s: Seq<char>, i: int, depth: nat, in_str: bool)
    requires
        0 <= i <= s.len(),
        scan_value_at(s, i, depth, in_str) is Some,
    ensures
        i <= scan_value_at(s, i, depth, in_str)->Some_0 < s.len(),
        s[scan_value_at(s, i, depth, in_str)->Some_0] == ','
            || s[scan_value_at(s, i, depth, in_str)->Some_0] == ')',
    decreases s.len() - i,
{
    if i < s.len() {
        let c = s[i];
        if in_str {
            if c == '"' {
                lemma_scan_value_bounds(s, i + 1, depth, false);
            } else if c == '\\' {
                if i + 1 < s.len() {
                    lemma_scan_value_bounds(s, i + 2, depth, true);
                }
            } else {
                lemma_scan_value_bounds(s, i + 1, depth, true);
            }
        } else if depth == 0 && (c == ',' || c == ')') {
        } else if c == '(' || c == '[' || c == '{' {
            lemma_scan_value_bounds(s, i + 1, depth + 1, false);
        } else if c == ')' || c == ']' || c == '}' {
            if depth > 0 {
                lemma_scan_value_bounds(s, i + 1, (depth - 1) as nat, false);
            }
        } else if c == '"' {
            lemma_scan_value_bounds(s, i + 1, depth, true);
        } else {
            lemma_scan_value_bounds(s, i + 1, depth, false);
        }
    }
}

pub proof fn lemma_rtrim_end_bounds(s: Seq<char>, i: int, j: int)
    requires
        0 <= i <= j <= s.len(),
    ensures
        i <= rtrim_end(s, i, j) <= j,
    decreases j - i,
{
    if j > i && is_ws(s[j - 1]) {
        lemma_rtrim_end_bounds(s, i, j - 1);
    }
}

/// A successful pair parse ends inside the input, on the pair's terminator.
pub proof fn lemma_parse_pair_bounds(s: Seq<char>, i: int)
    requires
        0 <= i <= s.len(),
        parse_pair(s, i) is Some,
    ensures
        i <= parse_pair(s, i)->Some_0.1 < s.len(),
        s[parse_pair(s, i)->Some_0.1] == ',' || s[parse_pair(s, i)->Some_0.1] == ')',
{
    let n0 = skip_ws(s, i);
    lemma_skip_ws_bounds(s, i);
    let n1 = scan_ident(s, n0);
    lemma_scan_ident_bounds(s, n0);
    let e = skip_ws(s, n1);
    lemma_skip_ws_bounds(s, n1);
    let v0 = skip_ws(s, e + 1);
    lemma_skip_ws_bounds(s, e + 1);
    lemma_scan_value_bounds(s, v0, 0, false);
}

/// A well-formed option value, as the parser itself produces them: a
/// literal's content holds neither quote nor backslash; other expression
/// text is nonempty, trimmed, balanced (its scan runs to the very end) and
/// is not itself a plain string literal.
pub open spec fn wf_value(v: OptionValueV) -> bool {
    match v {
        OptionValueV::Lit(c) => forall|k: int|
            0 <= k < c.len() ==> #[trigger] c[k] != '"' && c[k] != '\\',
        OptionValueV::Expr(t) => {
            &&& t.len() > 0
            &&& !is_ws(t[0])
            &&& !is_ws(t[t.len() - 1])
            &&& scan_value_at(t.push(')'), 0, 0, false) == Some(t.len() as int)
            &&& !is_lit_text(t)
        },
    }
}

/// A well-formed option: an identifier name and a well-formed value.
pub open spec fn wf_option(o: BuilderOptionV) -> bool {
    is_ident(o.name) && wf_value(o.value)
}

/// A well-formed option group.
pub open spec fn wf_options(opts: Seq<BuilderOptionV>) -> bool {
    forall|i: int| 0 <= i < opts.len() ==> wf_option(#[trigger] opts[i])
}

/// Walking a string-literal interior (no quote, no backslash) leaves the
/// scanner state untouched.
proof fn lemma_scan_string_interior(s: Seq<char>, i: int, j: int, depth: nat)
    requires
        0 <= i <= j <= s.len(),
        forall|k: int| i <= k < j ==> #[trigger] s[k] != '"' && s[k] != '\\',
    ensures
        scan_value_at(s, i, depth, true) == scan_value_at(s, j, depth, true),
    decreases j - i,
{
    if i < j {
        lemma_scan_string_interior(s, i + 1, j, depth);
    }
}

/// The source text of a well-formed value is nonempty, trimmed, scans to
/// its own end (with a terminator right behind it), and classifies back to
/// the value itself.
proof fn lemma_wf_value_text(v: OptionValueV)
    requires
        wf_value(v),
    ensures
        value_text(v).len() > 0,
        !is_ws(value_text(v)[0]),
        !is_ws(value_text(v)[value_text(v).len() - 1]),
        scan_value_at(value_text(v).push(')'), 0, 0, false) == Some(value_text(v).len() as int),
        classify(value_text(v)) == v,
{
    match v {
        OptionValueV::Lit(c) => {
            let t = value_text(v);
            let tp = t.push(')');
            assert(t.len() == c.len() + 2);
            assert(t[0] == '"');
            assert(t[t.len() - 1] == '"');
            assert(forall|m: int| 0 <= m < c.len() ==> #[trigger] t[1 + m] == c[m]);
            assert(tp[0] == '"');
            assert(forall|k: int| 1 <= k < 1 + c.len() as int ==> #[trigger] tp[k] != '"' && tp[k]
                != '\\');
            lemma_scan_string_interior(tp, 1, 1 + c.len() as int, 0);
            assert(tp[1 + c.len() as int] == '"');
            assert(tp[t.len() as int] == ')');
            assert(scan_value_at(tp, t.len() as int, 0, false) == Some(t.len() as int));
            assert(scan_value_at(tp, 1 + c.len() as int, 0, true) == scan_value_at(
                tp,
                t.len() as int,
                0,
                false,
            ));
            assert(scan_value_at(tp, 0, 0, false) == scan_value_at(tp, 1, 0, true));
            assert(is_lit_text(t)) by {
                assert(forall|k: int| 1 <= k < t.len() - 1 ==> #[trigger] t[k] == c[k - 1]);
            }
            assert(t.subrange(1, t.len() - 1) =~= c);
        },
        OptionValueV::Expr(t) => {
            assert(classify(t) == v);
        },
    }
}

/// Transports a value scan from the sentinel-terminated text onto any
/// surrounding string that holds the same text followed by a terminator:
/// the scan stops exactly at the end of the placed text.
proof fn lemma_scan_transport(t: Seq<char>, s: Seq<char>, p: int, k: int, depth: nat, in_str: bool)
    requires
        0 <= p,
        0 <= k <= t.len(),
        p + t.len() < s.len(),
        forall|m: int| 0 <= m < t.len() ==> s[p + m] == #[trigger] t[m],
        s[p + t.len()] == ',' || s[p + t.len()] == ')',
        scan_value_at(t.push(')'), k, depth, in_str) == Some(t.len() as int),
    ensures
        scan_value_at(s, p + k, depth, in_str) == Some(p + t.len()),
    decreases t.len() - k,
{
    let tp = t.push(')');
    if k == t.len() {
        assert(tp[k] == ')');
        if in_str {
            assert(scan_value_at(tp, k + 1, depth, true) is None);
            assert(false);
        } else if depth == 0 {
        } else {
            assert(scan_value_at(tp, k + 1, (depth - 1) as nat, false) is None);
            assert(false);
        }
    } else {
        let c = t[k];
        assert(tp[k] == c);
        assert(s[p + k] == c);
        if in_str {
            if c == '"' {
                lemma_scan_transport(t, s, p, k + 1, depth, false);
            } else if c == '\\' {
                if k + 1 < t.len() {
                    lemma_scan_transport(t, s, p, k + 2, depth, true);
                } else {
                    assert(scan_value_at(tp, k + 2, depth, true) is None);
                    assert(false);
                }
            } else {
                lemma_scan_transport(t, s, p, k + 1, depth, true);
            }
        } else if depth == 0 && (c == ',' || c == ')') {
            assert(false);
        } else if c == '(' || c == '[' || c == '{' {
            lemma_scan_transport(t, s, p, k + 1, depth + 1, false);
        } else if c == ')' || c == ']' || c == '}' {
            if depth > 0 {
                lemma_scan_transport(t, s, p, k + 1, (depth - 1) as nat, false);
            } else {
                assert(false);
            }
        } else if c == '"' {
            lemma_scan_transport(t, s, p, k + 1, depth, true);
        } else {
            lemma_scan_transport(t, s, p, k + 1, depth, false);
        }
    }
}

/// An identifier run placed before a non-identifier character scans to
/// exactly its own end.
proof fn lemma_scan_ident_range(s: Seq<char>, i: int, j: int)
    requires
        0 <= i <= j <= s.len(),
        forall|k: int| i <= k < j ==> is_ident_char(#[trigger] s[k]),
        j == s.len() || !is_ident_char(s[j]),
    ensures
        scan_ident(s, i) == j,
    decreases j - i,
{
    if i < j {
        lemma_scan_ident_range(s, i + 1, j);
    }
}

/// Parsing one serialized `name = value` pair, reached over leading
/// whitespace, yields the pair back, terminated right behind its text.
proof fn lemma_parse_pair_from(o: BuilderOptionV, s: Seq<char>, i: int, p: int)
    requires
        wf_option(o),
        0 <= i,
        0 <= p,
        skip_ws(s, i) == p,
        p + ser_option(o).len() < s.len(),
        forall|m: int| 0 <= m < ser_option(o).len() ==> s[p + m] == #[trigger] ser_option(o)[m],
        s[p + ser_option(o).len()] == ',' || s[p + ser_option(o).len()] == ')',
    ensures
        parse_pair(s, i) == Some((o, p + ser_option(o).len())),
{
    let name = o.name;
    let nl = name.len() as int;
    let t = value_text(o.value);
    let tl = t.len() as int;
    let so = ser_option(o);
    assert(so.len() == nl + 3 + tl);
    lemma_wf_value_text(o.value);
    assert(forall|m: int| 0 <= m < nl ==> so[m] == #[trigger] name[m]);
    assert(so[nl] == ' ');
    assert(so[nl + 1] == '=');
    assert(so[nl + 2] == ' ');
    assert(forall|m: int| 0 <= m < tl ==> so[nl + 3 + m] == #[trigger] t[m]);
    assert forall|m: int| 0 <= m < tl implies s[p + nl + 3 + m] == #[trigger] t[m] by {
        assert(s[p + (nl + 3 + m)] == so[nl + 3 + m]);
    }
    // the name
    assert forall|k: int| p <= k < p + nl implies is_ident_char(#[trigger] s[k]) by {
        let m = k - p;
        assert(s[p + m] == so[m]);
        assert(so[m] == name[m]);
        assert(is_ident_char(name[m]));
    }
    assert(s[p + nl] == ' ');
    lemma_scan_ident_range(s, p, p + nl);
    assert(scan_ident(s, p) == p + nl);
    assert(s.subrange(p, p + nl) =~= name);
    // the equals sign, one space on either side
    assert(skip_ws(s, p + nl + 1) == p + nl + 1);
    assert(skip_ws(s, p + nl) == p + nl + 1);
    assert(s[p + nl + 1] == '=');
    assert(skip_ws(s, p + nl + 3) == p + nl + 3) by {
        assert(s[p + nl + 3] == t[0]);
    }
    assert(skip_ws(s, p + nl + 2) == p + nl + 3);
    // the value
    lemma_scan_transport(t, s, p + nl + 3, 0, 0, false);
    assert(scan_value_at(s, p + nl + 3, 0, false) == Some(p + nl + 3 + tl));
    assert(rtrim_end(s, p + nl + 3, p + nl + 3 + tl) == p + nl + 3 + tl) by {
        assert(s[p + nl + 3 + tl - 1] == t[tl - 1]);
    }
    assert(s.subrange(p + nl + 3, p + nl + 3 + tl) =~= t);
    assert(classify(t) == o.value);
    assert(parse_pair(s, i)->Some_0.0 =~= o);
}

/// Parsing a serialized pair list from its first pair yields the list back,
/// ending on the closing parenthesis.
proof fn lemma_parse_pairs_from(opts: Seq<BuilderOptionV>, s: Seq<char>, i: int, p: int)
    requires
        wf_options(opts),
        opts.len() > 0,
        0 <= i <= s.len(),
        0 <= p,
        skip_ws(s, i) == p,
        p + ser_tail(opts).len() <= s.len(),
        forall|m: int| 0 <= m < ser_tail(opts).len() ==> s[p + m] == #[trigger] ser_tail(opts)[m],
    ensures
        parse_pairs(s, i) == Some((opts, p + ser_tail(opts).len() - 1)),
    decreases opts.len(),
{
    let o = opts[0];
    let so = ser_option(o);
    let st = ser_tail(opts);
    assert(wf_option(o));
    if opts.len() == 1 {
        assert(st == so + seq![')']);
        assert forall|m: int| 0 <= m < so.len() implies s[p + m] == #[trigger] so[m] by {
            assert(s[p + m] == st[m]);
            assert(st[m] == so[m]);
        }
        assert(s[p + so.len()] == ')') by {
            assert(s[p + so.len()] == st[so.len() as int]);
        }
        lemma_parse_pair_from(o, s, i, p);
        let term = p + so.len() as int;
        assert(s[term] == ')');
        assert(parse_pairs(s, i) == Some((seq![o], term)));
        assert(seq![o] =~= opts);
    } else {
        let rest = opts.drop_first();
        assert(st == so + seq![',', ' '] + ser_tail(rest));
        assert forall|m: int| 0 <= m < so.len() implies s[p + m] == #[trigger] so[m] by {
            assert(s[p + m] == st[m]);
            assert(st[m] == so[m]);
        }
        assert(s[p + so.len()] == ',') by {
            assert(s[p + so.len()] == st[so.len() as int]);
            assert(st[so.len() as int] == ',');
        }
        lemma_parse_pair_from(o, s, i, p);
        let term = p + so.len() as int;
        assert(s[term] == ',');
        // two characters of separator, then the next pair's name
        let q = term + 2;
        assert(s[term + 1] == ' ') by {
            assert(s[term + 1] == st[so.len() + 1 as int]);
        }
        assert(rest[0] == opts[1]);
        assert(wf_option(rest[0]));
        assert(ser_tail(rest)[0] == rest[0].name[0]) by {
            assert(ser_option(rest[0])[0] == rest[0].name[0]);
        }
        assert(is_ident_start(rest[0].name[0]));
        assert forall|m: int| 0 <= m < ser_tail(rest).len() implies s[q + m] == #[trigger] ser_tail(
            rest,
        )[m] by {
            assert(s[p + (so.len() + 2 + m)] == st[so.len() + 2 + m]);
            assert(st[so.len() + 2 + m] == ser_tail(rest)[m]);
        }
        assert(s[q] == rest[0].name[0]);
        assert(skip_ws(s, q) == q);
        assert(skip_ws(s, term + 1) == q);
        assert(s[q] != ')');
        lemma_parse_pairs_from(rest, s, term + 1, q);
        assert(parse_pairs(s, term + 1) == Some((rest, q + ser_tail(rest).len() - 1)));
        assert(parse_pairs(s, i) == Some((seq![o] + rest, q + ser_tail(rest).len() - 1)));
        assert(seq![o] + rest =~= opts);
        assert(q + ser_tail(rest).len() - 1 == p + st.len() - 1);
    }
}

/// Re-serializing a well-formed option group and parsing the result yields
/// the group back unchanged: serialization is order-preserving and lossless
/// for option names and expression text.
pub proof fn lemma_parse_serialize_roundtrip(opts: Seq<BuilderOptionV>)
    requires
        wf_options(opts),
    ensures
        spec_parse_options(spec_serialize(opts)) == Some(opts),
{
    let s = spec_serialize(opts);
    let st = ser_tail(opts);
    assert(s == seq!['('] + st);
    assert(s[0] == '(');
    assert(skip_ws(s, 0) == 0);
    assert(forall|m: int| 0 <= m < st.len() ==> s[1 + m] == #[trigger] st[m]);
    if opts.len() == 0 {
        assert(st == seq![')']);
        assert(s.len() == 2);
        assert(s[1] == ')');
        assert(skip_ws(s, 1) == 1);
        assert(skip_ws(s, 2) == 2);
        assert(spec_parse_options(s) == Some(Seq::<BuilderOptionV>::empty()));
        assert(Seq::<BuilderOptionV>::empty() =~= opts);
    } else {
        assert(wf_option(opts[0]));
        assert(st[0] == opts[0].name[0]);
        assert(is_ident_start(opts[0].name[0]));
        assert(s[1] == opts[0].name[0]);
        assert(skip_ws(s, 1) == 1);
        assert(s[1] != ')');
        lemma_parse_pairs_from(opts, s, 1, 1);
        let end = 1 + st.len() - 1;
        assert(parse_pairs(s, 1) == Some((opts, end)));
        assert(skip_ws(s, end + 1) == s.len() as int);
    }
}

/// Every character of an identifier run is an identifier character.
proof fn lemma_scan_ident_chars(s: Seq<char>, i: int)
    requires
        0 <= i <= s.len(),
    ensures
        forall|k: int| i <= k < scan_ident(s, i) ==> is_ident_char(#[trigger] s[k]),
    decreases s.len() - i,
{
    if i < s.len() && is_ident_char(s[i]) {
        lemma_scan_ident_chars(s, i + 1);
    }
}

/// Whitespace skipping stops on a non-whitespace character or at the end.
proof fn lemma_skip_ws_at_stop(s: Seq<char>, i: int)
    requires
        0 <= i <= s.len(),
    ensures
        skip_ws(s, i) == s.len() || !is_ws(s[skip_ws(s, i)]),
    decreases s.len() - i,
{
    if i < s.len() && is_ws(s[i]) {
        lemma_skip_ws_at_stop(s, i + 1);
    }
}

/// Trimming stops right after a non-whitespace character (or at `i`).
proof fn lemma_rtrim_at_stop(s: Seq<char>, i: int, j: int)
    requires
        0 <= i <= j <= s.len(),
    ensures
        rtrim_end(s, i, j) == i || !is_ws(s[rtrim_end(s, i, j) - 1]),
    decreases j - i,
{
    if j > i && is_ws(s[j - 1]) {
        lemma_rtrim_at_stop(s, i, j - 1);
    }
}

/// Everything trimmed off is whitespace.
proof fn lemma_rtrim_ws_suffix(s: Seq<char>, i: int, j: int)
    requires
        0 <= i <= j <= s.len(),
    ensures
        forall|k: int| rtrim_end(s, i, j) <= k < j ==> is_ws(#[trigger] s[k]),
    decreases j - i,
{
    if j > i && is_ws(s[j - 1]) {
        lemma_rtrim_ws_suffix(s, i, j - 1);
        lemma_rtrim_end_bounds(s, i, j - 1);
    }
}

/// A value scan over `s` that stops at `b` also runs to the very end of the
/// scanned text cut out of `s` and closed with a sentinel parenthesis.
proof fn lemma_scan_localize(s: Seq<char>, a: int, b: int, k: int, d: nat, q: bool)
    requires
        0 <= a,
        0 <= k,
        a + k <= b <= s.len(),
        scan_value_at(s, a + k, d, q) == Some(b),
    ensures
        scan_value_at(s.subrange(a, b).push(')'), k, d, q) == Some(b - a),
    decreases b - (a + k),
{
    lemma_scan_value_bounds(s, a + k, d, q);
    let u = s.subrange(a, b);
    let up = u.push(')');
    if a + k == b {
        let c = s[b];
        if q {
            if c == '"' {
                lemma_scan_value_bounds(s, b + 1, d, false);
                assert(false);
            } else if c == '\\' {
                if b + 1 < s.len() {
                    lemma_scan_value_bounds(s, b + 2, d, true);
                }
                assert(false);
            } else {
                lemma_scan_value_bounds(s, b + 1, d, true);
                assert(false);
            }
        } else if d == 0 && (c == ',' || c == ')') {
            assert(up[b - a] == ')');
        } else if c == '(' || c == '[' || c == '{' {
            lemma_scan_value_bounds(s, b + 1, d + 1, false);
            assert(false);
        } else if c == ')' || c == ']' || c == '}' {
            if d > 0 {
                lemma_scan_value_bounds(s, b + 1, (d - 1) as nat, false);
            }
            assert(false);
        } else if c == '"' {
            lemma_scan_value_bounds(s, b + 1, d, true);
            assert(false);
        } else {
            lemma_scan_value_bounds(s, b + 1, d, false);
            assert(false);
        }
    } else {
        let c = s[a + k];
        assert(up[k] == c);
        if q {
            if c == '"' {
                lemma_scan_localize(s, a, b, k + 1, d, false);
            } else if c == '\\' {
                lemma_scan_value_bounds(s, a + k + 2, d, true);
                lemma_scan_localize(s, a, b, k + 2, d, true);
            } else {
                lemma_scan_localize(s, a, b, k + 1, d, true);
            }
        } else if d == 0 && (c == ',' || c == ')') {
            assert(false);
        } else if c == '(' || c == '[' || c == '{' {
            lemma_scan_localize(s, a, b, k + 1, d + 1, false);
        } else if c == ')' || c == ']' || c == '}' {
            if d > 0 {
                lemma_scan_localize(s, a, b, k + 1, (d - 1) as nat, false);
            } else {
                assert(false);
            }
        } else if c == '"' {
            lemma_scan_localize(s, a, b, k + 1, d, true);
        } else {
            lemma_scan_localize(s, a, b, k + 1, d, false);
        }
    }
}

/// A scan that crosses a pure-whitespace tail and then accepts the
/// sentinel must be at depth zero and outside any string throughout that
/// tail.
proof fn lemma_ws_tail_state(u: Seq<char>, j: int, d: nat, q: bool)
    requires
        0 <= j <= u.len(),
        forall|m: int| j <= m < u.len() ==> is_ws(#[trigger] u[m]),
        scan_value_at(u.push(')'), j, d, q) == Some(u.len() as int),
    ensures
        d == 0 && !q,
    decreases u.len() - j,
{
    let up = u.push(')');
    if j == u.len() {
        if q {
            assert(scan_value_at(up, j + 1, d, true) is None);
            assert(false);
        } else if d > 0 {
            assert(scan_value_at(up, j + 1, (d - 1) as nat, false) is None);
            assert(false);
        }
    } else {
        assert(up[j] == u[j]);
        assert(is_ws(u[j]));
        lemma_ws_tail_state(u, j + 1, d, q);
    }
}

/// Trimming trailing whitespace off scanned text preserves the scan's
/// success up to the (new) end.
proof fn lemma_scan_trim(u: Seq<char>, w: int, k: int, d: nat, q: bool)
    requires
        0 <= k <= w <= u.len(),
        forall|m: int| w <= m < u.len() ==> is_ws(#[trigger] u[m]),
        scan_value_at(u.push(')'), k, d, q) == Some(u.len() as int),
    ensures
        scan_value_at(u.subrange(0, w).push(')'), k, d, q) == Some(w),
    decreases w - k,
{
    let up = u.push(')');
    let t = u.subrange(0, w);
    let tp = t.push(')');
    if w == u.len() {
        assert(t =~= u);
        assert(tp =~= up);
    } else if k == w {
        lemma_ws_tail_state(u, k, d, q);
        assert(tp[w] == ')');
    } else {
        let c = u[k];
        assert(up[k] == c);
        assert(tp[k] == c);
        if q {
            if c == '"' {
                lemma_scan_trim(u, w, k + 1, d, false);
            } else if c == '\\' {
                if k + 2 <= w {
                    lemma_scan_trim(u, w, k + 2, d, true);
                } else {
                    lemma_ws_tail_state(u, k + 2, d, true);
                    assert(false);
                }
            } else {
                lemma_scan_trim(u, w, k + 1, d, true);
            }
        } else if d == 0 && (c == ',' || c == ')') {
            assert(false);
        } else if c == '(' || c == '[' || c == '{' {
            lemma_scan_trim(u, w, k + 1, d + 1, false);
        } else if c == ')' || c == ']' || c == '}' {
            if d > 0 {
                lemma_scan_trim(u, w, k + 1, (d - 1) as nat, false);
            } else {
                assert(false);
            }
        } else if c == '"' {
            lemma_scan_trim(u, w, k + 1, d, true);
        } else {
            lemma_scan_trim(u, w, k + 1, d, false);
        }
    }
}

/// Whatever pair the parser accepts is well-formed.
proof fn lemma_parse_pair_wf(s: Seq<char>, i: int)
    requires
        0 <= i <= s.len(),
        parse_pair(s, i) is Some,
    ensures
        wf_option(parse_pair(s, i)->Some_0.0),
{
    let n0 = skip_ws(s, i);
    lemma_skip_ws_bounds(s, i);
    let n1 = scan_ident(s, n0);
    lemma_scan_ident_bounds(s, n0);
    let name = s.subrange(n0, n1);
    lemma_scan_ident_chars(s, n0);
    assert(is_ident(name)) by {
        assert(name[0] == s[n0]);
        assert(forall|k: int| 0 <= k < name.len() ==> name[k] == #[trigger] s[n0 + k]);
    }
    let e = skip_ws(s, n1);
    lemma_skip_ws_bounds(s, n1);
    let v0 = skip_ws(s, e + 1);
    lemma_skip_ws_bounds(s, e + 1);
    lemma_scan_value_bounds(s, v0, 0, false);
    let vend = scan_value_at(s, v0, 0, false)->Some_0;
    let tend = rtrim_end(s, v0, vend);
    lemma_rtrim_end_bounds(s, v0, vend);
    let t = s.subrange(v0, tend);
    if is_lit_text(t) {
        let content = t.subrange(1, t.len() - 1);
        assert(forall|k: int| 0 <= k < content.len() ==> content[k] == #[trigger] t[k + 1]);
        assert(wf_value(OptionValueV::Lit(content)));
    } else {
        assert(t.len() > 0);
        lemma_skip_ws_at_stop(s, e + 1);
        assert(!is_ws(t[0])) by {
            assert(t[0] == s[v0]);
        }
        lemma_rtrim_at_stop(s, v0, vend);
        assert(!is_ws(t[t.len() - 1])) by {
            assert(t[t.len() - 1] == s[tend - 1]);
        }
        lemma_scan_localize(s, v0, vend, 0, 0, false);
        let u = s.subrange(v0, vend);
        lemma_rtrim_ws_suffix(s, v0, vend);
        assert(forall|m: int| tend - v0 <= m < u.len() ==> is_ws(#[trigger] u[m])) by {
            assert(forall|m: int| tend - v0 <= m < u.len() ==> u[m] == #[trigger] s[v0 + m]);
        }
        lemma_scan_trim(u, tend - v0, 0, 0, false);
        assert(u.subrange(0, tend - v0) =~= t);
        assert(wf_value(OptionValueV::Expr(t)));
    }
}

/// Whatever pair list the parser accepts is well-formed.
proof fn lemma_parse_pairs_wf(s: Seq<char>, i: int)
    requires
        0 <= i <= s.len(),
        parse_pairs(s, i) is Some,
    ensures
        wf_options(parse_pairs(s, i)->Some_0.0),
    decreases s.len() - i,
{
    lemma_parse_pair_bounds(s, i);
    lemma_parse_pair_wf(s, i);
    let (opt, term) = parse_pair(s, i)->Some_0;
    if s[term] == ')' {
    } else {
        let j = skip_ws(s, term + 1);
        lemma_skip_ws_bounds(s, term + 1);
        if j < s.len() && s[j] == ')' {
        } else {
            lemma_parse_pairs_wf(s, term + 1);
            let rest = parse_pairs(s, term + 1)->Some_0.0;
            assert(forall|k: int|
                0 <= k < (seq![opt] + rest).len() ==> wf_option(#[trigger] (seq![opt] + rest)[k]));
        }
    }
}

/// Whatever option group the parser accepts is well-formed, so by
/// [`lemma_parse_serialize_roundtrip`] re-serializing it in declared order
/// and parsing again gives the same group back: nothing about option names
/// or expression text is lost by a parse.
pub proof fn lemma_parse_is_lossless(s: Seq<char>)
    requires
        spec_parse_options(s) is Some,
    ensures
        wf_options(spec_parse_options(s)->Some_0),
        spec_parse_options(spec_serialize(spec_parse_options(s)->Some_0)) == spec_parse_options(
            s,
        ),
{
    let i0 = skip_ws(s, 0);
    lemma_skip_ws_bounds(s, 0);
    let j = skip_ws(s, i0 + 1);
    if j < s.len() && s[j] == ')' {
    } else {
        lemma_parse_pairs_wf(s, i0 + 1);
    }
    lemma_parse_serialize_roundtrip(spec_parse_options(s)->Some_0);
}

fn is_ws_x(c: char) -> (r: bool)
    ensures
        r == is_ws(c),
{
    c == ' ' || c == '\t' || c == '\n' || c == '\r'
}

fn is_ident_start_x(c: char) -> (r: bool)
    ensures
        r == is_ident_start(c),
{
    ('a' <= c && c <= 'z') || ('A' <= c && c <= 'Z') || c == '_'
}

fn is_ident_char_x(c: char) -> (r: bool)
    ensures
        r == is_ident_char(c),
{
    ('a' <= c && c <= 'z') || ('A' <= c && c <= 'Z') || c == '_' || ('0' <= c && c <= '9')
}

fn skip_ws_x(s: &str, i: usize) -> (r: usize)
    requires
        i <= s@.len(),
    ensures
        r == skip_ws(s@, i as int),
        i <= r <= s@.len(),
{
    let n: usize = s.unicode_len();
    let mut cur: usize = i;
    while cur < n && is_ws_x(s.get_char(cur))
        invariant
            n == s@.len(),
            i <= cur <= n,
            skip_ws(s@, i as int) == skip_ws(s@, cur as int),
        decreases n - cur,
    {
        cur = cur + 1;
    }
    cur
}

fn scan_ident_x(s: &str, i: usize) -> (r: usize)
    requires
        i <= s@.len(),
    ensures
        r == scan_ident(s@, i as int),
        i <= r <= s@.len(),
{
    let n: usize = s.unicode_len();
    let mut cur: usize = i;
    while cur < n && is_ident_char_x(s.get_char(cur))
        invariant
            n == s@.len(),
            i <= cur <= n,
            scan_ident(s@, i as int) == scan_ident(s@, cur as int),
        decreases n - cur,
    {
        cur = cur + 1;
    }
    cur
}

fn scan_value_x(s: &str, i: usize) -> (r: Option<usize>)
    requires
        i <= s@.len(),
    ensures
        match r {
            Some(e) => scan_value_at(s@, i as int, 0, false) == Some(e as int) && i <= e
                < s@.len(),
            None => scan_value_at(s@, i as int, 0, false) is None,
        },
{
    let n: usize = s.unicode_len();
    let mut cur: usize = i;
    let mut depth: usize = 0;
    let mut in_str: bool = false;
    loop
        invariant
            n == s@.len(),
            i <= cur <= n,
            depth <= cur,
            scan_value_at(s@, i as int, 0, false) == scan_value_at(
                s@,
                cur as int,
                depth as nat,
                in_str,
            ),
        decreases n - cur,
    {
        if cur >= n {
            return None;
        }
        let c = s.get_char(cur);
        if in_str {
            if c == '"' {
                in_str = false;
                cur = cur + 1;
            } else if c == '\\' {
                if cur + 1 < n {
                    cur = cur + 2;
                } else {
                    return None;
                }
            } else {
                cur = cur + 1;
            }
        } else if depth == 0 && (c == ',' || c == ')') {
            proof {
                lemma_scan_value_bounds(s@, i as int, 0, false);
            }
            return Some(cur);
        } else if c == '(' || c == '[' || c == '{' {
            depth = depth + 1;
            cur = cur + 1;
        } else if c == ')' || c == ']' || c == '}' {
            if depth > 0 {
                depth = depth - 1;
                cur = cur + 1;
            } else {
                return None;
            }
        } else if c == '"' {
            in_str = true;
            cur = cur + 1;
        } else {
            cur = cur + 1;
        }
    }
}

fn rtrim_end_x(s: &str, i: usize, j: usize) -> (r: usize)
    requires
        i <= j,
        j <= s@.len(),
    ensures
        r == rtrim_end(s@, i as int, j as int),
        i <= r <= j,
{
    let mut cur: usize = j;
    while cur > i && is_ws_x(s.get_char(cur - 1))
        invariant
            i <= cur <= j <= s@.len(),
            rtrim_end(s@, i as int, j as int) == rtrim_end(s@, i as int, cur as int),
        decreases cur,
    {
        cur = cur - 1;
    }
    cur
}

/// Executable form of [`classify`]: `t` is the scanned, trimmed value text.
fn classify_x(s: &str, from: usize, to: usize) -> (r: OptionValue)
    requires
        from < to <= s@.len(),
    ensures
        r@ == classify(s@.subrange(from as int, to as int)),
{
    let ghost t = s@.subrange(from as int, to as int);
    let len: usize = to - from;
    if len >= 2 && s.get_char(from) == '"' && s.get_char(to - 1) == '"' {
        let mut k: usize = from + 1;
        let mut clean: bool = true;
        while k < to - 1
            invariant
                from + 1 <= k <= to - 1,
                to <= s@.len(),
                from < to,
                len == to - from,
                len >= 2,
                clean == (forall|m: int|
                    from + 1 <= m < k ==> #[trigger] s@[m] != '"' && s@[m] != '\\'),
            decreases to - k,
        {
            let c = s.get_char(k);
            if c == '"' || c == '\\' {
                clean = false;
            }
            k = k + 1;
        }
        if clean {
            proof {
                assert(is_lit_text(t)) by {
                    assert(t.len() == to - from);
                    assert(t[0] == s@[from as int]);
                    assert(t[t.len() - 1] == s@[to - 1 as int]);
                    assert(forall|m: int|
                        1 <= m < t.len() - 1 ==> #[trigger] t[m] == s@[from + m]);
                }
            }
            let content = s.substring_char(from + 1, to - 1);
            proof {
                assert(content@ =~= t.subrange(1, t.len() - 1));
            }
            OptionValue::Lit(String::from_str(content))
        } else {
            proof {
                assert(!is_lit_text(t)) by {
                    let ghost bad = choose|m: int|
                        from + 1 <= m < k && (#[trigger] s@[m] == '"' || s@[m] == '\\');
                    assert(t[bad - from] == s@[bad]);
                }
            }
            OptionValue::Expr(String::from_str(s.substring_char(from, to)))
        }
    } else {
        proof {
            if t.len() >= 2 {
                assert(t[0] == s@[from as int]);
                assert(t[t.len() - 1] == s@[to - 1 as int]);
            }
        }
        OptionValue::Expr(String::from_str(s.substring_char(from, to)))
    }
}

/// Executable form of [`parse_pair`].
fn parse_pair_x(s: &str, i: usize) -> (r: Result<(BuilderOption, usize), SyntaxError>)
    requires
        i <= s@.len(),
    ensures
        match r {
            Ok((o, term)) => parse_pair(s@, i as int) == Some((o@, term as int)) && i <= term
                < s@.len(),
            Err(_) => parse_pair(s@, i as int) is None,
        },
{
    let n0 = skip_ws_x(s, i);
    let n1 = scan_ident_x(s, n0);
    if n1 == n0 {
        return Err(SyntaxError { kind: SyntaxErrorKind::ExpectedName, at: n0 });
    }
    if !is_ident_start_x(s.get_char(n0)) {
        return Err(SyntaxError { kind: SyntaxErrorKind::ExpectedName, at: n0 });
    }
    let name = String::from_str(s.substring_char(n0, n1));
    let e = skip_ws_x(s, n1);
    let n: usize = s.unicode_len();
    if e >= n || s.get_char(e) != '=' {
        return Err(SyntaxError { kind: SyntaxErrorKind::ExpectedEq, at: e });
    }
    let v0 = skip_ws_x(s, e + 1);
    match scan_value_x(s, v0) {
        None => Err(SyntaxError { kind: SyntaxErrorKind::BadValue, at: v0 }),
        Some(vend) => {
            let t = rtrim_end_x(s, v0, vend);
            if t == v0 {
                Err(SyntaxError { kind: SyntaxErrorKind::BadValue, at: v0 })
            } else {
                let value = classify_x(s, v0, t);
                Ok((BuilderOption { name, value }, vend))
            }
        },
    }
}

/// Parses a parenthesized option list: executable form of
/// [`spec_parse_options`]. Returns the parsed pairs in source order, or a
/// [`SyntaxError`] naming the offending position exactly when the input is
/// malformed.
pub fn parse_options(s: &str) -> (r: Result<BuilderOptions, SyntaxError>)
    ensures
        match r {
            Ok(opts) => spec_parse_options(s@) == Some(opts@),
            Err(_) => spec_parse_options(s@) is None,
        },
{
    let n: usize = s.unicode_len();
    let i0 = skip_ws_x(s, 0);
    if i0 >= n || s.get_char(i0) != '(' {
        return Err(SyntaxError { kind: SyntaxErrorKind::ExpectedGroup, at: i0 });
    }
    let j = skip_ws_x(s, i0 + 1);
    if j < n && s.get_char(j) == ')' {
        if skip_ws_x(s, j + 1) == n {
            let empty: Vec<BuilderOption> = Vec::new();
            proof {
                assert(empty@.map_values(|o: BuilderOption| o@)
                    =~= Seq::<BuilderOptionV>::empty());
            }
            return Ok(BuilderOptions { options: empty });
        } else {
            return Err(
                SyntaxError { kind: SyntaxErrorKind::TrailingTokens, at: skip_ws_x(s, j + 1) },
            );
        }
    }
    let mut acc: Vec<BuilderOption> = Vec::new();
    let mut cur: usize = i0 + 1;
    loop
        invariant
            n == s@.len(),
            cur <= n,
            i0 < n,
            i0 as int == skip_ws(s@, 0),
            s@[i0 as int] == '(',
            ({
                let j = skip_ws(s@, i0 + 1 as int);
                !(j < n && s@[j] == ')')
            }),
            ({
                let whole = parse_pairs(s@, i0 + 1 as int);
                match parse_pairs(s@, cur as int) {
                    Some((rest, end)) => whole == Some(
                        (acc@.map_values(|o: BuilderOption| o@) + rest, end),
                    ),
                    None => whole is None,
                }
            }),
        decreases n - cur,
    {
        match parse_pair_x(s, cur) {
            Err(err) => {
                proof {
                    assert(parse_pairs(s@, cur as int) is None);
                }
                return Err(err);
            },
            Ok((opt, term)) => {
                let ghost prev_acc = acc@;
                let c = s.get_char(term);
                if c == ')' {
                    acc.push(opt);
                    proof {
                        assert(parse_pairs(s@, cur as int) == Some(
                            (seq![opt@], term as int),
                        ));
                        let prev = prev_acc.map_values(|o: BuilderOption| o@);
                        let now = acc@.map_values(|o: BuilderOption| o@);
                        assert(now =~= prev + seq![opt@]);
                    }
                    if skip_ws_x(s, term + 1) == n {
                        return Ok(BuilderOptions { options: acc });
                    } else {
                        return Err(
                            SyntaxError {
                                kind: SyntaxErrorKind::TrailingTokens,
                                at: skip_ws_x(s, term + 1),
                            },
                        );
                    }
                } else {
                    let j2 = skip_ws_x(s, term + 1);
                    if j2 < n && s.get_char(j2) == ')' {
                        acc.push(opt);
                        proof {
                            assert(parse_pairs(s@, cur as int) == Some(
                                (seq![opt@], j2 as int),
                            ));
                            let prev = prev_acc.map_values(|o: BuilderOption| o@);
                            let now = acc@.map_values(|o: BuilderOption| o@);
                            assert(now =~= prev + seq![opt@]);
                        }
                        if skip_ws_x(s, j2 + 1) == n {
                            return Ok(BuilderOptions { options: acc });
                        } else {
                            return Err(
                                SyntaxError {
                                    kind: SyntaxErrorKind::TrailingTokens,
                                    at: skip_ws_x(s, j2 + 1),
                                },
                            );
                        }
                    } else {
                        acc.push(opt);
                        proof {
                            let prev = prev_acc.map_values(|o: BuilderOption| o@);
                            let now = acc@.map_values(|o: BuilderOption| o@);
                            assert(now =~= prev + seq![opt@]);
                            if parse_pairs(s@, term + 1 as int) is Some {
                                let (rest, end) = parse_pairs(s@, term + 1 as int)->Some_0;
                                assert(parse_pairs(s@, cur as int) == Some(
                                    (seq![opt@] + rest, end),
                                ));
                                assert(prev + (seq![opt@] + rest) =~= now + rest);
                            } else {
                                assert(parse_pairs(s@, cur as int) is None);
                            }
                        }
                        cur = term + 1;
                    }
                }
            },
        }
    }
}

} // verus!
