//! Glob-style exclusion matching. A pattern uses `*` for "any sequence of
//! characters" and is otherwise literal; a match must cover the entire
//! candidate string. Patterns are compiled to anchored regular expressions —
//! every metacharacter of the literal text is escaped, then each `*` becomes
//! the match-any token — and the compiled matchers are cached lazily, in
//! step with the raw pattern list.

use vstd::prelude::*;
use vstd::seq_lib::*;
use vstd::string::*;

verus! {

/// The longest pattern the matcher accepts. The bound keeps the compiled
/// expression far below the regex engine's program-size limit, so that
/// compilation cannot fail.
pub const EXCLUDE_PATTERN_MAX_LEN: usize = 4096;

/// Whether a glob pattern matches a text in full: a literal character
/// matches itself, and `*` matches any run of characters other than a line
/// break.
pub open spec fn glob_matches(p: Seq<char>, t: Seq<char>) -> bool
    decreases p.len(), t.len(),
{
    if p.len() == 0 {
        t.len() == 0
    } else if p[0] == '*' {
        glob_matches(p.drop_first(), t) || (t.len() > 0 && t[0] != '\n' && glob_matches(
            p,
            t.drop_first(),
        ))
    } else {
        t.len() > 0 && t[0] == p[0] && glob_matches(p.drop_first(), t.drop_first())
    }
}

/// The regular-expression metacharacters that literal pattern text must
/// escape.
pub open spec fn is_regex_meta(c: char) -> bool {
    c == '\\' || c == '.' || c == '+' || c == '?' || c == '(' || c == ')' || c == '|' || c == '['
        || c == ']' || c == '{' || c == '}' || c == '^' || c == '$'
}

/// The regex text standing for one pattern character.
pub open spec fn escape_char(c: char) -> Seq<char> {
    if c == '*' {
        seq!['.', '*']
    } else if is_regex_meta(c) {
        seq!['\\', c]
    } else {
        seq![c]
    }
}

/// The body of the regex a pattern compiles to.
pub open spec fn glob_body(p: Seq<char>) -> Seq<char>
    decreases p.len(),
{
    if p.len() == 0 {
        Seq::<char>::empty()
    } else {
        escape_char(p[0]) + glob_body(p.drop_first())
    }
}

/// The whole regex a pattern compiles to, anchored at both ends.
pub open spec fn glob_source(p: Seq<char>) -> Seq<char> {
    seq!['^'] + glob_body(p) + seq!['$']
}

proof fn lemma_glob_body_snoc(p: Seq<char>, c: char)
    ensures
        glob_body(p.push(c)) =~= glob_body(p) + escape_char(c),
    decreases p.len(),
{
    if p.len() == 0 {
        assert(p.push(c)[0] == c);
        assert(p.push(c).drop_first() =~= Seq::<char>::empty());
        assert(glob_body(Seq::<char>::empty()) =~= Seq::<char>::empty());
    } else {
        assert(p.push(c)[0] == p[0]);
        assert(p.push(c).drop_first() =~= p.drop_first().push(c));
        lemma_glob_body_snoc(p.drop_first(), c);
    }
}

/// Relies on `String::push`: it appends the given character to the end of
/// the string.
#[verifier::external_body]
fn push_char(s: &mut String, c: char)
    ensures
        final(s)@ == old(s)@.push(c),
{
    s.push(c);
}

/// Builds the anchored regex source for one glob pattern.
fn glob_regex_source(raw: &String) -> (r: String)
    ensures
        r@ == glob_source(raw@),
{
    let mut out = String::new();
    push_char(&mut out, '^');
    let n = raw.as_str().unicode_len();
    let mut i: usize = 0;
    proof {
        assert(raw@.take(0) =~= Seq::<char>::empty());
        assert(out@ =~= seq!['^'] + glob_body(raw@.take(0)));
    }
    while i < n
        invariant
            i <= n,
            n == raw@.len(),
            out@ == seq!['^'] + glob_body(raw@.take(i as int)),
        decreases n - i,
    {
        let c = raw.as_str().get_char(i);
        proof {
            assert(raw@.take(i + 1) =~= raw@.take(i as int).push(raw@[i as int]));
            lemma_glob_body_snoc(raw@.take(i as int), raw@[i as int]);
        }
        if c == '*' {
            push_char(&mut out, '.');
            push_char(&mut out, '*');
        } else if c == '\\' || c == '.' || c == '+' || c == '?' || c == '(' || c == ')' || c == '|'
            || c == '[' || c == ']' || c == '{' || c == '}' || c == '^' || c == '$' {
            push_char(&mut out, '\\');
            push_char(&mut out, c);
        } else {
            push_char(&mut out, c);
        }
        i = i + 1;
        proof {
            assert(out@ =~= seq!['^'] + glob_body(raw@.take(i as int)));
        }
    }
    push_char(&mut out, '$');
    proof {
        assert(raw@.take(n as int) =~= raw@);
        assert(out@ =~= glob_source(raw@));
    }
    out
}

#[verifier::external_type_specification]
#[verifier::external_body]
pub struct ExRegex(regex::Regex);

/// One compiled pattern: the raw glob it came from, and the regex engine's
/// compiled form of `glob_source` applied to it. Values exist only through
/// `compile_matcher`, which keeps the two fields in step.
pub struct Matcher {
    raw: String,
    regex: regex::Regex,
}

impl Matcher {
    pub closed spec fn raw_view(&self) -> Seq<char> {
        self.raw@
    }
}

/// Relies on `regex::Regex::new`: on the anchored, fully escaped sources
/// built by `glob_regex_source` it always parses, and — with the bound on the
/// pattern length keeping the program far below the engine's default size
/// limit — always compiles.
#[verifier::external_body]
fn compile_matcher(raw: &String, source: &String) -> (m: Matcher)
    requires
        raw@.len() <= EXCLUDE_PATTERN_MAX_LEN,
        source@ == glob_source(raw@),
    ensures
        m.raw_view() == raw@,
{
    Matcher { raw: raw.clone(), regex: regex::Regex::new(source.as_str()).unwrap() }
}

/// Relies on `regex::Regex::is_match`: an anchored pattern of escaped
/// literals and `.*` wildcards matches the whole haystack exactly when the
/// originating glob does — a literal matches itself, and `.*` matches any
/// run of characters other than a line break.
#[verifier::external_body]
fn matcher_is_match(m: &Matcher, text: &str) -> (r: bool)
    ensures
        r == glob_matches(m.raw_view(), text@),
{
    m.regex.is_match(text)
}

/// Whether any of the patterns matches the text in full.
pub open spec fn spec_any_match(patterns: Seq<Seq<char>>, text: Seq<char>) -> bool {
    exists|i: int| 0 <= i < patterns.len() && glob_matches(patterns[i], text)
}

/// The exclusion matcher: an ordered list of raw glob patterns together with
/// a cache of compiled matchers. The cache is re-derived from the raw list
/// before any query is answered; compiled entries are never dropped, only
/// appended.
pub struct ExclusionMatcher {
    raw: Vec<String>,
    compiled: Vec<Matcher>,
}

impl ExclusionMatcher {
    /// The raw patterns, as character sequences.
    pub closed spec fn patterns(&self) -> Seq<Seq<char>> {
        Seq::new(self.raw@.len(), |i: int| self.raw@[i]@)
    }

    /// The compiled cache.
    pub closed spec fn compiled_matchers(&self) -> Seq<Matcher> {
        self.compiled@
    }

    /// Well-formedness: the cache covers a prefix of the raw list, entry by
    /// entry, and every raw pattern is within the accepted length.
    pub closed spec fn wf(&self) -> bool {
        &&& self.compiled@.len() <= self.raw@.len()
        &&& forall|i: int|
            0 <= i < self.compiled@.len() ==> self.compiled@[i].raw_view() == self.patterns()[i]
        &&& forall|i: int| 0 <= i < self.raw@.len() ==> self.patterns()[i].len()
            <= EXCLUDE_PATTERN_MAX_LEN
    }

    /// A matcher with no patterns.
    pub fn empty() -> (r: ExclusionMatcher)
        ensures
            r.wf(),
            r.patterns() =~= Seq::<Seq<char>>::empty(),
            r.compiled_matchers() =~= Seq::<Matcher>::empty(),
    {
        ExclusionMatcher { raw: Vec::new(), compiled: Vec::new() }
    }

    /// Appends one raw pattern. A pattern longer than
    /// `EXCLUDE_PATTERN_MAX_LEN` characters is refused and nothing changes.
    pub fn add_pattern(&mut self, pattern: String) -> (ok: bool)
        requires
            old(self).wf(),
        ensures
            final(self).wf(),
            ok == (pattern@.len() <= EXCLUDE_PATTERN_MAX_LEN),
            ok ==> final(self).patterns() =~= old(self).patterns().push(pattern@),
            !ok ==> final(self).patterns() == old(self).patterns(),
            final(self).compiled_matchers() == old(self).compiled_matchers(),
    {
        if pattern.as_str().unicode_len() <= EXCLUDE_PATTERN_MAX_LEN {
            self.raw.push(pattern);
            proof {
                assert(forall|i: int|
                    0 <= i < old(self).raw@.len() ==> self.patterns()[i] == old(
                        self,
                    ).patterns()[i]);
            }
            true
        } else {
            false
        }
    }

    /// Replaces the whole raw pattern list; the cache starts over. Refused,
    /// with nothing changed, when some pattern is over the accepted length.
    pub fn set_patterns(&mut self, patterns: Vec<String>) -> (ok: bool)
        requires
            old(self).wf(),
        ensures
            final(self).wf(),
            ok == (forall|i: int|
                0 <= i < patterns@.len() ==> patterns@[i]@.len() <= EXCLUDE_PATTERN_MAX_LEN),
            ok ==> final(self).patterns() =~= Seq::new(
                patterns@.len(),
                |i: int| patterns@[i]@,
            ),
            ok ==> final(self).compiled_matchers() =~= Seq::<Matcher>::empty(),
            !ok ==> *final(self) == *old(self),
    {
        let mut i: usize = 0;
        while i < patterns.len()
            invariant
                i <= patterns@.len(),
                *self == *old(self),
                old(self).wf(),
                forall|k: int| 0 <= k < i ==> patterns@[k]@.len() <= EXCLUDE_PATTERN_MAX_LEN,
            decreases patterns@.len() - i,
        {
            if patterns[i].as_str().unicode_len() > EXCLUDE_PATTERN_MAX_LEN {
                return false;
            }
            i = i + 1;
        }
        self.raw = patterns;
        self.compiled = Vec::new();
        true
    }

    /// The number of raw patterns.
    pub fn pattern_count(&self) -> (r: usize)
        ensures
            r == self.patterns().len(),
    {
        self.raw.len()
    }

    /// Whether any pattern matches the text. Compiles the raw patterns the
    /// cache does not cover yet, appending to it and never dropping an entry;
    /// the answer is a function of the raw patterns and the text alone.
    pub fn matches_any(&mut self, text: &str) -> (r: bool)
        requires
            old(self).wf(),
        ensures
            final(self).wf(),
            r == spec_any_match(old(self).patterns(), text@),
            final(self).patterns() == old(self).patterns(),
            old(self).compiled_matchers().is_prefix_of(final(self).compiled_matchers()),
            final(self).compiled_matchers().len() == final(self).patterns().len(),
    {
        if self.compiled.len() != self.raw.len() {
            let mut k = self.compiled.len();
            while k < self.raw.len()
                invariant
                    k == self.compiled@.len(),
                    k <= self.raw@.len(),
                    self.raw@ == old(self).raw@,
                    old(self).compiled@.is_prefix_of(self.compiled@),
                    self.wf(),
                decreases self.raw@.len() - k,
            {
                proof {
                    assert(self.patterns()[k as int] == self.raw@[k as int]@);
                    assert(self.patterns()[k as int].len() <= EXCLUDE_PATTERN_MAX_LEN);
                }
                let ghost before = self.compiled@;
                let src = glob_regex_source(&self.raw[k]);
                let m = compile_matcher(&self.raw[k], &src);
                self.compiled.push(m);
                k = k + 1;
                proof {
                    assert(self.compiled@.subrange(0, before.len() as int) =~= before);
                    assert(before.is_prefix_of(self.compiled@));
                    assert(self.compiled@.subrange(0, old(self).compiled@.len() as int)
                        =~= old(self).compiled@);
                    assert(self.compiled@[k - 1].raw_view() == self.patterns()[k - 1]);
                    assert(forall|i: int|
                        0 <= i < k - 1 ==> self.compiled@[i] == before[i]);
                }
            }
        }
        proof {
            assert(self.compiled@.subrange(0, self.compiled@.len() as int) =~= self.compiled@);
            assert(old(self).compiled@.is_prefix_of(self.compiled@));
        }
        let mut idx: usize = 0;
        let ghost pats = self.patterns();
        while idx < self.compiled.len()
            invariant
                idx <= self.compiled@.len(),
                self.compiled@.len() == self.raw@.len(),
                self.wf(),
                self.raw@ == old(self).raw@,
                old(self).compiled@.is_prefix_of(self.compiled@),
                pats == self.patterns(),
                forall|k: int| 0 <= k < idx ==> !glob_matches(pats[k], text@),
            decreases self.compiled@.len() - idx,
        {
            if matcher_is_match(&self.compiled[idx], text) {
                proof {
                    assert(glob_matches(pats[idx as int], text@));
                }
                return true;
            }
            idx = idx + 1;
        }
        proof {
            assert(!spec_any_match(pats, text@));
        }
        false
    }
}

/// A pattern without `*` is anchored, not a substring test: it matches
/// exactly the text equal to the pattern itself.
pub proof fn lemma_literal_pattern_exact(p: Seq<char>, t: Seq<char>)
    requires
        forall|i: int| 0 <= i < p.len() ==> p[i] != '*',
    ensures
        glob_matches(p, t) <==> p == t,
    decreases p.len(),
{
    if p.len() == 0 {
        if glob_matches(p, t) {
            assert(p =~= t);
        }
    } else {
        assert(p[0] != '*');
        let p1 = p.drop_first();
        assert(forall|i: int| 0 <= i < p1.len() ==> p1[i] == p[i + 1] && p1[i] != '*');
        if t.len() > 0 {
            lemma_literal_pattern_exact(p1, t.drop_first());
            assert(forall|i: int|
                0 <= i < t.drop_first().len() ==> t.drop_first()[i] == t[i + 1]);
            if glob_matches(p, t) {
                assert(p =~= seq![p[0]] + p1);
                assert(t =~= seq![t[0]] + t.drop_first());
            }
            if p == t {
                assert(t.drop_first() =~= p1);
            }
        }
    }
}

proof fn lemma_star_only(t: Seq<char>)
    ensures
        glob_matches(seq!['*'], t) <==> (forall|k: int| 0 <= k < t.len() ==> t[k] != '\n'),
    decreases t.len(),
{
    let p = seq!['*'];
    assert(p[0] == '*');
    assert(p.drop_first() =~= Seq::<char>::empty());
    assert(glob_matches(Seq::<char>::empty(), t) == (t.len() == 0));
    if t.len() > 0 {
        let t1 = t.drop_first();
        assert(forall|i: int| 0 <= i < t1.len() ==> t1[i] == t[i + 1]);
        lemma_star_only(t1);
        if glob_matches(p, t) {
            assert(t[0] != '\n' && glob_matches(p, t1));
            assert(forall|k: int| 0 <= k < t.len() ==> t[k] != '\n') by {
                assert(forall|k: int| 1 <= k < t.len() ==> t[k] == t1[k - 1]);
            }
        }
        if forall|k: int| 0 <= k < t.len() ==> t[k] != '\n' {
            assert(forall|k: int| 0 <= k < t1.len() ==> t1[k] != '\n');
            assert(glob_matches(p, t1));
            assert(glob_matches(p, t));
        }
    }
}

proof fn lemma_literal_then_star(m: Seq<char>, t: Seq<char>)
    requires
        forall|i: int| 0 <= i < m.len() ==> m[i] != '*',
    ensures
        glob_matches(m + seq!['*'], t) <==> {
            &&& t.len() >= m.len()
            &&& t.subrange(0, m.len() as int) == m
            &&& forall|k: int| m.len() <= k < t.len() ==> t[k] != '\n'
        },
    decreases m.len(),
{
    let p = m + seq!['*'];
    if m.len() == 0 {
        assert(p =~= seq!['*']);
        lemma_star_only(t);
        assert(t.subrange(0, 0) =~= m);
    } else {
        assert(p[0] == m[0]);
        assert(m[0] != '*');
        let m1 = m.drop_first();
        assert(forall|i: int| 0 <= i < m1.len() ==> m1[i] == m[i + 1]);
        assert(p.drop_first() =~= m1 + seq!['*']);
        if t.len() == 0 {
            assert(!glob_matches(p, t));
        } else {
            let t1 = t.drop_first();
            assert(forall|i: int| 0 <= i < t1.len() ==> t1[i] == t[i + 1]);
            lemma_literal_then_star(m1, t1);
            if glob_matches(p, t) {
                assert(t[0] == m[0]);
                assert(t1.subrange(0, m1.len() as int) == m1);
                assert(t.subrange(0, m.len() as int) =~= seq![t[0]] + t1.subrange(
                    0,
                    m1.len() as int,
                ));
                assert(seq![m[0]] + m1 =~= m);
                assert(t.subrange(0, m.len() as int) =~= m);
                assert(forall|k: int| m.len() <= k < t.len() ==> t[k] != '\n') by {
                    assert(forall|k: int| 1 <= k < t.len() ==> t[k] == t1[k - 1]);
                }
            }
            if {
                &&& t.len() >= m.len()
                &&& t.subrange(0, m.len() as int) == m
                &&& forall|k: int| m.len() <= k < t.len() ==> t[k] != '\n'
            } {
                assert(t[0] == t.subrange(0, m.len() as int)[0]);
                assert(t1.subrange(0, m1.len() as int) =~= t.subrange(
                    0,
                    m.len() as int,
                ).drop_first());
                assert(m.drop_first() =~= m1);
                assert(forall|k: int| m1.len() <= k < t1.len() ==> t1[k] != '\n') by {
                    assert(forall|k: int| 0 <= k < t1.len() ==> t1[k] == t[k + 1]);
                }
                assert(glob_matches(p.drop_first(), t1));
                assert(glob_matches(p, t));
            }
        }
    }
}

/// A pattern `*M*` with literal `M` matches exactly the texts that carry `M`
/// as a contiguous substring with no line break around it — `*module*`
/// matches `src/module/file` and `module` itself, but not `src/mod`.
pub proof fn lemma_star_wrapped_pattern(m: Seq<char>, t: Seq<char>)
    requires
        forall|i: int| 0 <= i < m.len() ==> m[i] != '*',
    ensures
        glob_matches(seq!['*'] + m + seq!['*'], t) <==> exists|i: int|
            {
                &&& 0 <= i
                &&& i + m.len() <= t.len()
                &&& #[trigger] t.subrange(i, i + m.len()) == m
                &&& forall|k: int| 0 <= k < i ==> t[k] != '\n'
                &&& forall|k: int| i + m.len() <= k < t.len() ==> t[k] != '\n'
            },
    decreases t.len(),
{
    let p = seq!['*'] + m + seq!['*'];
    assert(p[0] == '*');
    assert(p.drop_first() =~= m + seq!['*']);
    lemma_literal_then_star(m, t);
    if t.len() == 0 {
        if glob_matches(p, t) {
            let zero: int = 0;
            assert(t.subrange(zero, zero + m.len()) == m);
            assert(0 <= zero && zero + m.len() <= t.len() && t.subrange(zero, zero + m.len()) == m
                && (forall|k: int| 0 <= k < zero ==> t[k] != '\n') && (forall|k: int|
                zero + m.len() <= k < t.len() ==> t[k] != '\n'));
        }
    } else {
        let t1 = t.drop_first();
        assert(t1 =~= t.skip(1));
        assert(forall|i: int| 0 <= i < t1.len() ==> t1[i] == t[i + 1]);
        lemma_star_wrapped_pattern(m, t1);
        if glob_matches(p, t) {
            if glob_matches(m + seq!['*'], t) {
                let zero: int = 0;
                assert(t.subrange(zero, zero + m.len()) == m);
                assert(zero + m.len() <= t.len() && t.subrange(zero, zero + m.len()) == m && (
                forall|k: int| 0 <= k < zero ==> t[k] != '\n') && (forall|k: int|
                    zero + m.len() <= k < t.len() ==> t[k] != '\n'));
            } else {
                assert(t[0] != '\n' && glob_matches(p, t1));
                let i0 = choose|i: int|
                    {
                        &&& 0 <= i
                        &&& i + m.len() <= t1.len()
                        &&& #[trigger] t1.subrange(i, i + m.len()) == m
                        &&& forall|k: int| 0 <= k < i ==> t1[k] != '\n'
                        &&& forall|k: int| i + m.len() <= k < t1.len() ==> t1[k] != '\n'
                    };
                let j = i0 + 1;
                assert(t.subrange(j, j + m.len()) =~= t1.subrange(i0, i0 + m.len()));
                assert(forall|k: int| 0 <= k < j ==> t[k] != '\n') by {
                    assert(forall|k: int| 1 <= k < j ==> t[k] == t1[k - 1]);
                }
                assert(forall|k: int| j + m.len() <= k < t.len() ==> t[k] != '\n') by {
                    assert(forall|k: int| 1 <= k < t.len() ==> t[k] == t1[k - 1]);
                }
                assert(0 <= j && j + m.len() <= t.len() && t.subrange(j, j + m.len()) == m && (
                forall|k: int| 0 <= k < j ==> t[k] != '\n') && (forall|k: int|
                    j + m.len() <= k < t.len() ==> t[k] != '\n'));
            }
        }
        if exists|i: int|
            {
                &&& 0 <= i
                &&& i + m.len() <= t.len()
                &&& #[trigger] t.subrange(i, i + m.len()) == m
                &&& forall|k: int| 0 <= k < i ==> t[k] != '\n'
                &&& forall|k: int| i + m.len() <= k < t.len() ==> t[k] != '\n'
            } {
            let i0 = choose|i: int|
                {
                    &&& 0 <= i
                    &&& i + m.len() <= t.len()
                    &&& #[trigger] t.subrange(i, i + m.len()) == m
                    &&& forall|k: int| 0 <= k < i ==> t[k] != '\n'
                    &&& forall|k: int| i + m.len() <= k < t.len() ==> t[k] != '\n'
                };
            if i0 == 0 {
                assert(t.subrange(0, m.len() as int) == m);
                assert(glob_matches(m + seq!['*'], t));
            } else {
                assert(t[0] != '\n');
                assert(t1.subrange(i0 - 1, (i0 - 1) + m.len()) =~= t.subrange(i0, i0 + m.len()));
                assert(forall|k: int| 0 <= k < i0 - 1 ==> t1[k] != '\n') by {
                    assert(forall|k: int| 0 <= k < i0 - 1 ==> t1[k] == t[k + 1]);
                }
                assert(forall|k: int| (i0 - 1) + m.len() <= k < t1.len() ==> t1[k] != '\n') by {
                    assert(forall|k: int| 0 <= k < t1.len() ==> t1[k] == t[k + 1]);
                }
                assert(0 <= i0 - 1 && (i0 - 1) + m.len() <= t1.len() && t1.subrange(
                    i0 - 1,
                    (i0 - 1) + m.len(),
                ) == m && (forall|k: int| 0 <= k < i0 - 1 ==> t1[k] != '\n') && (forall|k: int|
                    (i0 - 1) + m.len() <= k < t1.len() ==> t1[k] != '\n'));
                assert(glob_matches(p, t1));
                assert(glob_matches(p, t));
            }
        }
    }
}

/// A pattern `*/X` with literal `X` matches exactly the texts whose final
/// segment is `X` preceded by a separator somewhere after the start — `src/lib`
/// but neither `lib` nor `src/notlib` — the part before the separator being
/// free of line breaks.
pub proof fn lemma_star_slash_pattern(x: Seq<char>, t: Seq<char>)
    requires
        forall|i: int| 0 <= i < x.len() ==> x[i] != '*',
    ensures
        glob_matches(seq!['*', '/'] + x, t) <==> exists|i: int|
            {
                &&& 0 <= i < t.len()
                &&& #[trigger] t[i] == '/'
                &&& t.skip(i + 1) == x
                &&& forall|k: int| 0 <= k < i ==> t[k] != '\n'
            },
    decreases t.len(),
{
    let p = seq!['*', '/'] + x;
    assert(p[0] == '*');
    assert(p.drop_first() =~= seq!['/'] + x);
    let sx = seq!['/'] + x;
    assert(sx[0] == '/');
    if t.len() == 0 {
        assert(!glob_matches(sx, t));
        assert(!glob_matches(p, t));
    } else {
        let t1 = t.drop_first();
        assert(t1 =~= t.skip(1));
        assert(forall|i: int| 0 <= i < t1.len() ==> t1[i] == t[i + 1]);
        lemma_literal_pattern_exact(x, t1);
        assert(sx.drop_first() =~= x);
        lemma_star_slash_pattern(x, t1);
        if glob_matches(p, t) {
            if glob_matches(sx, t) {
                // the separator is right at the start
                assert(t[0] == '/');
                assert(glob_matches(x, t1));
                assert(t.skip(1) == x);
                let zero: int = 0;
                assert(zero < t.len() && t[zero] == '/' && t.skip(zero + 1) == x && (forall|
                    k: int,
                |
                    0 <= k < zero ==> t[k] != '\n'));
            } else {
                assert(t[0] != '\n' && glob_matches(p, t1));
                let i0 = choose|i: int|
                    {
                        &&& 0 <= i < t1.len()
                        &&& #[trigger] t1[i] == '/'
                        &&& t1.skip(i + 1) == x
                        &&& forall|k: int| 0 <= k < i ==> t1[k] != '\n'
                    };
                assert(t[i0 + 1] == '/');
                assert(t.skip(i0 + 2) =~= t1.skip(i0 + 1));
                assert(forall|k: int| 0 <= k < i0 + 1 ==> t[k] != '\n') by {
                    assert(forall|k: int| 1 <= k < i0 + 1 ==> t[k] == t1[k - 1]);
                }
                assert(0 <= i0 + 1 < t.len() && t[i0 + 1] == '/' && t.skip((i0 + 1) + 1) == x && (
                forall|k: int| 0 <= k < i0 + 1 ==> t[k] != '\n'));
            }
        }
        if exists|i: int|
            {
                &&& 0 <= i < t.len()
                &&& #[trigger] t[i] == '/'
                &&& t.skip(i + 1) == x
                &&& forall|k: int| 0 <= k < i ==> t[k] != '\n'
            } {
            let i0 = choose|i: int|
                {
                    &&& 0 <= i < t.len()
                    &&& #[trigger] t[i] == '/'
                    &&& t.skip(i + 1) == x
                    &&& forall|k: int| 0 <= k < i ==> t[k] != '\n'
                };
            if i0 == 0 {
                assert(t.skip(1) == x);
                assert(glob_matches(x, t1));
                assert(glob_matches(sx, t));
                assert(glob_matches(p, t));
            } else {
                assert(t[0] != '\n');
                assert(t1[i0 - 1] == t[i0]);
                assert(t1.skip((i0 - 1) + 1) =~= t.skip(i0 + 1));
                assert(forall|k: int| 0 <= k < i0 - 1 ==> t1[k] != '\n') by {
                    assert(forall|k: int| 0 <= k < i0 - 1 ==> t1[k] == t[k + 1]);
                }
                assert(0 <= i0 - 1 < t1.len() && t1[i0 - 1] == '/' && t1.skip((i0 - 1) + 1) == x
                    && (forall|k: int| 0 <= k < i0 - 1 ==> t1[k] != '\n'));
                assert(glob_matches(p, t1));
                assert(glob_matches(p, t));
            }
        }
    }
}

/// A query that matched keeps matching after the pattern list grows: the
/// exclusion answer is monotone under appending patterns.
pub proof fn lemma_match_monotonic(p1: Seq<Seq<char>>, p2: Seq<Seq<char>>, text: Seq<char>)
    requires
        p1.is_prefix_of(p2),
        spec_any_match(p1, text),
    ensures
        spec_any_match(p2, text),
{
    let i = choose|i: int| 0 <= i < p1.len() && glob_matches(p1[i], text);
    assert(p2[i] == p1[i]);
    assert(glob_matches(p2[i], text));
}

} // verus!
