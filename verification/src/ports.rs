//! The port-list parser: a user-supplied comma-delimited string becomes an
//! ordered sequence of validated 16-bit port numbers, with one diagnostic per
//! token that fails to parse. Invalid tokens are omitted, never fatal; empty
//! tokens are silently skipped; duplicates are preserved in order.

use vstd::prelude::*;

verus! {

/// ASCII whitespace as trimmed from either end of a token.
pub open spec fn is_space_char(c: char) -> bool {
    c == ' ' || c == '\t' || c == '\n' || c == '\r' || c == '\u{b}' || c == '\u{c}'
}

/// A decimal digit.
pub open spec fn is_digit_char(c: char) -> bool {
    '0' as int <= c as int && c as int <= '9' as int
}

/// The numeric value of one decimal digit.
pub open spec fn digit_value(c: char) -> nat {
    (c as int - '0' as int) as nat
}

/// Index of the first comma in `s`, or `s.len()` if there is none.
pub open spec fn first_comma(s: Seq<char>) -> nat
    decreases s.len(),
{
    if s.len() == 0 {
        0
    } else if s[0] == ',' {
        0
    } else {
        1 + first_comma(s.drop_first())
    }
}

/// The comma-separated tokens of `s`, in order. An empty string is one empty
/// token; a trailing comma yields a trailing empty token.
pub open spec fn split_commas(s: Seq<char>) -> Seq<Seq<char>>
    decreases s.len(),
{
    let i = first_comma(s);
    if i >= s.len() {
        seq![s]
    } else {
        seq![s.subrange(0, i as int)] + split_commas(s.subrange(i as int + 1, s.len() as int))
    }
}

/// `s` without its leading whitespace.
pub open spec fn trim_start(s: Seq<char>) -> Seq<char>
    decreases s.len(),
{
    if s.len() > 0 && is_space_char(s[0]) {
        trim_start(s.drop_first())
    } else {
        s
    }
}

/// `s` without its trailing whitespace.
pub open spec fn trim_end(s: Seq<char>) -> Seq<char>
    decreases s.len(),
{
    if s.len() > 0 && is_space_char(s[s.len() - 1]) {
        trim_end(s.drop_last())
    } else {
        s
    }
}

/// `s` without surrounding whitespace.
pub open spec fn trim(s: Seq<char>) -> Seq<char> {
    trim_end(trim_start(s))
}

pub open spec fn all_digits(s: Seq<char>) -> bool {
    forall|j: int| 0 <= j < s.len() ==> is_digit_char(#[trigger] s[j])
}

/// The value of a digit string read left to right in base ten.
pub open spec fn digits_value(s: Seq<char>) -> nat
    decreases s.len(),
{
    if s.len() == 0 {
        0
    } else {
        digits_value(s.drop_last()) * 10 + digit_value(s.last())
    }
}

/// The digits of a numeric token: an optional leading plus sign is dropped.
pub open spec fn numeric_body(t: Seq<char>) -> Seq<char> {
    if t.len() > 0 && t[0] == '+' {
        t.drop_first()
    } else {
        t
    }
}

/// A token is numeric when, after an optional leading plus sign, it is one or
/// more decimal digits.
pub open spec fn is_numeric_token(t: Seq<char>) -> bool {
    numeric_body(t).len() > 0 && all_digits(numeric_body(t))
}

/// The value a numeric token denotes.
pub open spec fn numeric_value(t: Seq<char>) -> nat {
    digits_value(numeric_body(t))
}

/// A trimmed token that yields a port: numeric and within the 16-bit range.
pub open spec fn token_kept(t: Seq<char>) -> bool {
    is_numeric_token(t) && numeric_value(t) <= 65535
}

/// Why a non-empty token was rejected.
#[derive(Clone, Copy, PartialEq, Eq, Structural, Debug)]
pub enum ParseReason {
    /// The token is not a decimal number at all.
    NotNumeric,
    /// The token is a number but exceeds the largest 16-bit port.
    OutOfRange,
}

pub open spec fn reason_for(t: Seq<char>) -> ParseReason {
    if is_numeric_token(t) {
        ParseReason::OutOfRange
    } else {
        ParseReason::NotNumeric
    }
}

/// The mathematical content of one diagnostic.
pub ghost struct DiagView {
    pub position: nat,
    pub token: Seq<char>,
    pub reason: ParseReason,
}

/// One report about a token that failed to parse: its 1-based position among
/// the comma-separated tokens, the trimmed token text, and the reason.
pub struct ParseDiagnostic {
    pub position: usize,
    pub token: String,
    pub reason: ParseReason,
}

impl View for ParseDiagnostic {
    type V = DiagView;

    open spec fn view(&self) -> DiagView {
        DiagView { position: self.position as nat, token: self.token@, reason: self.reason }
    }
}

impl ParseDiagnostic {
    /// A short description of the failure, for the notification surface.
    pub fn reason_text(&self) -> (r: String)
        ensures
            self.reason == ParseReason::NotNumeric ==> r@ == "not a number"@,
            self.reason == ParseReason::OutOfRange ==> r@ == "out of range for a 16-bit port"@,
    {
        match self.reason {
            ParseReason::NotNumeric => String::from_str("not a number"),
            ParseReason::OutOfRange => String::from_str("out of range for a 16-bit port"),
        }
    }
}

/// The ports that a token list yields, in order: one per kept token.
pub open spec fn ports_of(toks: Seq<Seq<char>>) -> Seq<u16>
    decreases toks.len(),
{
    if toks.len() == 0 {
        Seq::empty()
    } else {
        let t = trim(toks[0]);
        let rest = ports_of(toks.drop_first());
        if t.len() == 0 {
            rest
        } else if token_kept(t) {
            seq![numeric_value(t) as u16] + rest
        } else {
            rest
        }
    }
}

/// The diagnostics that a token list yields when its first token stands at
/// 1-based position `pos`: one per non-empty token that is not kept.
pub open spec fn diags_of(toks: Seq<Seq<char>>, pos: nat) -> Seq<DiagView>
    decreases toks.len(),
{
    if toks.len() == 0 {
        Seq::empty()
    } else {
        let t = trim(toks[0]);
        let rest = diags_of(toks.drop_first(), pos + 1);
        if t.len() == 0 || token_kept(t) {
            rest
        } else {
            seq![DiagView { position: pos, token: t, reason: reason_for(t) }] + rest
        }
    }
}

/// The ports of a whole delimited string.
pub open spec fn parsed_ports(s: Seq<char>) -> Seq<u16> {
    ports_of(split_commas(s))
}

/// The diagnostics of a whole delimited string, positions starting at 1.
pub open spec fn parsed_diags(s: Seq<char>) -> Seq<DiagView> {
    diags_of(split_commas(s), 1)
}

pub open spec fn views_of_diags(v: Seq<ParseDiagnostic>) -> Seq<DiagView> {
    v.map_values(|d: ParseDiagnostic| d@)
}

proof fn lemma_first_comma_at(s: Seq<char>, i: int)
    requires
        0 <= i <= s.len(),
        forall|j: int| 0 <= j < i ==> s[j] != ',',
        i < s.len() ==> s[i] == ',',
    ensures
        first_comma(s) == i,
    decreases s.len(),
{
    if i == 0 {
    } else {
        lemma_first_comma_at(s.drop_first(), i - 1);
    }
}

proof fn lemma_split_commas_count(s: Seq<char>)
    ensures
        1 <= split_commas(s).len() <= s.len() + 1,
    decreases s.len(),
{
    let i = first_comma(s);
    if i < s.len() {
        lemma_split_commas_count(s.subrange(i as int + 1, s.len() as int));
    }
}

proof fn lemma_trim_start_is_skip(s: Seq<char>, a: int)
    requires
        0 <= a <= s.len(),
        forall|j: int| 0 <= j < a ==> is_space_char(#[trigger] s[j]),
        a < s.len() ==> !is_space_char(s[a]),
    ensures
        trim_start(s) == s.subrange(a, s.len() as int),
    decreases a,
{
    if a == 0 {
        assert(s.subrange(0, s.len() as int) =~= s);
    } else {
        lemma_trim_start_is_skip(s.drop_first(), a - 1);
        assert(s.drop_first().subrange(a - 1, s.drop_first().len() as int) =~= s.subrange(
            a,
            s.len() as int,
        ));
    }
}

proof fn lemma_trim_end_is_take(s: Seq<char>, b: int)
    requires
        0 <= b <= s.len(),
        forall|j: int| b <= j < s.len() ==> is_space_char(#[trigger] s[j]),
        b > 0 ==> !is_space_char(s[b - 1]),
    ensures
        trim_end(s) == s.subrange(0, b),
    decreases s.len() - b,
{
    if b == s.len() {
        assert(s.subrange(0, b) =~= s);
    } else {
        lemma_trim_end_is_take(s.drop_last(), b);
        assert(s.drop_last().subrange(0, b) =~= s.subrange(0, b));
    }
}

/// A scan that finds `a` leading and `s.len() - b` trailing whitespace
/// characters, with non-space characters (if any) at both ends of the middle,
/// has found the trimmed token.
proof fn lemma_trim_is_subrange(s: Seq<char>, a: int, b: int)
    requires
        0 <= a <= b <= s.len(),
        forall|j: int| 0 <= j < a ==> is_space_char(#[trigger] s[j]),
        forall|j: int| b <= j < s.len() ==> is_space_char(#[trigger] s[j]),
        a < b ==> !is_space_char(s[a]) && !is_space_char(s[b - 1]),
        a == b ==> a == s.len(),
    ensures
        trim(s) == s.subrange(a, b),
{
    if a == b {
        lemma_trim_start_is_skip(s, a);
        assert(trim_start(s) =~= Seq::<char>::empty());
        assert(s.subrange(a, b) =~= Seq::<char>::empty());
    } else {
        lemma_trim_start_is_skip(s, a);
        let t = s.subrange(a, s.len() as int);
        lemma_trim_end_is_take(t, b - a);
        assert(t.subrange(0, b - a) =~= s.subrange(a, b));
    }
}

fn is_space(c: char) -> (r: bool)
    ensures
        r == is_space_char(c),
{
    c == ' ' || c == '\t' || c == '\n' || c == '\r' || c == '\u{b}' || c == '\u{c}'
}

fn is_digit(c: char) -> (r: bool)
    ensures
        r == is_digit_char(c),
{
    let u = c as u32;
    '0' as u32 <= u && u <= '9' as u32
}

/// What one comma-separated token amounts to.
pub enum TokenOutcome {
    /// Blank after trimming: silently skipped.
    Empty,
    /// A valid port.
    Port(u16),
    /// Rejected: the trimmed token text and the reason.
    Invalid(String, ParseReason),
}

/// Classifies one raw token: trims it, then reads it as a decimal port.
fn classify_token(tok: &str) -> (r: TokenOutcome)
    ensures
        ({
            let t = trim(tok@);
            match r {
                TokenOutcome::Empty => t.len() == 0,
                TokenOutcome::Port(p) => token_kept(t) && p == numeric_value(t) as u16,
                TokenOutcome::Invalid(raw, reason) => t.len() > 0 && !token_kept(t) && raw@ == t
                    && reason == reason_for(t),
            }
        }),
{
    let n = tok.unicode_len();
    let mut a: usize = 0;
    while a < n && is_space(tok.get_char(a))
        invariant
            a <= n,
            n == tok@.len(),
            forall|j: int| 0 <= j < a ==> is_space_char(#[trigger] tok@[j]),
        decreases n - a,
    {
        a = a + 1;
    }
    let mut b: usize = n;
    while b > a && is_space(tok.get_char(b - 1))
        invariant
            a <= b <= n,
            n == tok@.len(),
            forall|j: int| b <= j < n ==> is_space_char(#[trigger] tok@[j]),
        decreases b,
    {
        b = b - 1;
    }
    proof {
        lemma_trim_is_subrange(tok@, a as int, b as int);
    }
    let ghost t = trim(tok@);
    assert(t =~= tok@.subrange(a as int, b as int));
    if a == b {
        return TokenOutcome::Empty;
    }
    // strip one optional leading plus sign
    let d: usize = if tok.get_char(a) == '+' {
        a + 1
    } else {
        a
    };
    let ghost body = numeric_body(t);
    proof {
        assert(body =~= tok@.subrange(d as int, b as int));
    }
    if d == b {
        // the token was a bare sign
        return TokenOutcome::Invalid(
            String::from_str(tok.substring_char(a, b)),
            ParseReason::NotNumeric,
        );
    }
    let mut i: usize = d;
    // value of the digits so far, saturated to 65536 once past the port range
    let mut acc: u32 = 0;
    while i < b
        invariant
            d <= i <= b <= n,
            d < b,
            n == tok@.len(),
            t == trim(tok@),
            body == numeric_body(t),
            body =~= tok@.subrange(d as int, b as int),
            t =~= tok@.subrange(a as int, b as int),
            a <= d <= a + 1,
            forall|j: int| d <= j < i ==> is_digit_char(#[trigger] tok@[j]),
            acc <= 65536,
            digits_value(tok@.subrange(d as int, i as int)) <= 65535 ==> acc == digits_value(
                tok@.subrange(d as int, i as int),
            ),
            digits_value(tok@.subrange(d as int, i as int)) > 65535 ==> acc == 65536,
        decreases b - i,
    {
        let c = tok.get_char(i);
        if !is_digit(c) {
            proof {
                assert(body[i - d] == tok@[i as int]);
                assert(!all_digits(body));
            }
            return TokenOutcome::Invalid(
                String::from_str(tok.substring_char(a, b)),
                ParseReason::NotNumeric,
            );
        }
        let dv: u32 = c as u32 - '0' as u32;
        proof {
            let pre = tok@.subrange(d as int, i as int);
            let post = tok@.subrange(d as int, i as int + 1);
            assert(post =~= pre.push(tok@[i as int]));
            assert(post.drop_last() =~= pre);
            assert(digits_value(post) == digits_value(pre) * 10 + digit_value(tok@[i as int]));
        }
        let wide: u32 = acc * 10 + dv;
        if wide > 65535 {
            acc = 65536;
        } else {
            acc = wide;
        }
        i = i + 1;
    }
    proof {
        assert(all_digits(body));
        assert(is_numeric_token(t));
        assert(numeric_value(t) == digits_value(tok@.subrange(d as int, b as int)));
    }
    if acc <= 65535 {
        TokenOutcome::Port(acc as u16)
    } else {
        TokenOutcome::Invalid(String::from_str(tok.substring_char(a, b)), ParseReason::OutOfRange)
    }
}

proof fn lemma_ports_of_concat(x: Seq<Seq<char>>, y: Seq<Seq<char>>)
    ensures
        ports_of(x + y) == ports_of(x) + ports_of(y),
    decreases x.len(),
{
    if x.len() == 0 {
        assert(x + y =~= y);
        assert(ports_of(x) + ports_of(y) =~= ports_of(y));
    } else {
        assert((x + y).drop_first() =~= x.drop_first() + y);
        lemma_ports_of_concat(x.drop_first(), y);
        let t = trim(x[0]);
        if t.len() > 0 && token_kept(t) {
            assert(seq![numeric_value(t) as u16] + (ports_of(x.drop_first()) + ports_of(y)) =~= (
            seq![numeric_value(t) as u16] + ports_of(x.drop_first())) + ports_of(y));
        }
    }
}

proof fn lemma_diags_of_concat(x: Seq<Seq<char>>, y: Seq<Seq<char>>, pos: nat)
    ensures
        diags_of(x + y, pos) == diags_of(x, pos) + diags_of(y, pos + x.len()),
    decreases x.len(),
{
    if x.len() == 0 {
        assert(x + y =~= y);
        assert(diags_of(x, pos) + diags_of(y, pos) =~= diags_of(y, pos));
    } else {
        assert((x + y).drop_first() =~= x.drop_first() + y);
        lemma_diags_of_concat(x.drop_first(), y, pos + 1);
        let t = trim(x[0]);
        if !(t.len() == 0 || token_kept(t)) {
            let d0 = DiagView { position: pos, token: t, reason: reason_for(t) };
            assert(seq![d0] + (diags_of(x.drop_first(), pos + 1) + diags_of(y, pos + x.len())) =~= (
            seq![d0] + diags_of(x.drop_first(), pos + 1)) + diags_of(y, pos + x.len()));
        }
    }
}

proof fn lemma_singleton_models(t0: Seq<char>, pos: nat)
    ensures
        trim(t0).len() == 0 ==> ports_of(seq![t0]) == Seq::<u16>::empty() && diags_of(seq![t0], pos)
            == Seq::<DiagView>::empty(),
        token_kept(trim(t0)) ==> ports_of(seq![t0]) == seq![numeric_value(trim(t0)) as u16]
            && diags_of(seq![t0], pos) == Seq::<DiagView>::empty(),
        trim(t0).len() > 0 && !token_kept(trim(t0)) ==> ports_of(seq![t0]) == Seq::<u16>::empty()
            && diags_of(seq![t0], pos) == seq![
            DiagView { position: pos, token: trim(t0), reason: reason_for(trim(t0)) },
        ],
{
    let d0 = DiagView { position: pos, token: trim(t0), reason: reason_for(trim(t0)) };
    assert(seq![t0].drop_first() =~= Seq::<Seq<char>>::empty());
    assert(ports_of(Seq::<Seq<char>>::empty()) == Seq::<u16>::empty());
    assert(diags_of(Seq::<Seq<char>>::empty(), pos + 1) == Seq::<DiagView>::empty());
    assert(seq![t0][0] == t0);
    assert(seq![numeric_value(trim(t0)) as u16] + Seq::<u16>::empty() =~= seq![
        numeric_value(trim(t0)) as u16,
    ]);
    assert(seq![d0] + Seq::<DiagView>::empty() =~= seq![d0]);
}

/// Parses a comma-delimited port list. Returns the valid ports in the order
/// encountered (duplicates preserved) and one diagnostic, with its 1-based
/// token position, for each non-empty token that is not a valid port. Blank
/// tokens are skipped silently. No input is an error for the list as a whole.
pub fn parse(text: &str) -> (r: (Vec<u16>, Vec<ParseDiagnostic>))
    requires
        text@.len() < usize::MAX,
    ensures
        r.0@ == parsed_ports(text@),
        views_of_diags(r.1@) == parsed_diags(text@),
{
    let ghost toks = split_commas(text@);
    proof {
        lemma_split_commas_count(text@);
    }
    let n = text.unicode_len();
    let mut out: Vec<u16> = Vec::new();
    let mut diags: Vec<ParseDiagnostic> = Vec::new();
    let mut start: usize = 0;
    let mut pos: usize = 0;
    let ghost mut k: int = 0;
    proof {
        assert(toks.skip(0) =~= toks);
        assert(text@.subrange(0, n as int) =~= text@);
        assert(toks.take(0) =~= Seq::<Seq<char>>::empty());
        assert(views_of_diags(Seq::<ParseDiagnostic>::empty()) =~= Seq::<DiagView>::empty());
    }
    while start <= n
        invariant
            toks == split_commas(text@),
            n == text@.len(),
            n < usize::MAX,
            start <= n + 1,
            pos == k,
            0 <= k <= toks.len(),
            toks.len() <= n + 1,
            start <= n ==> toks.skip(k) == split_commas(text@.subrange(start as int, n as int)),
            start == n + 1 ==> k == toks.len(),
            out@ == ports_of(toks.take(k)),
            views_of_diags(diags@) == diags_of(toks.take(k), 1),
        decreases n + 1 - start,
    {
        proof {
            lemma_split_commas_count(text@.subrange(start as int, n as int));
            assert(toks.skip(k).len() >= 1);
        }
        let ghost sfx = text@.subrange(start as int, n as int);
        // find the end of the current token
        let mut j = start;
        while j < n && text.get_char(j) != ','
            invariant
                start <= j <= n,
                n == text@.len(),
                forall|p: int| start <= p < j ==> text@[p] != ',',
            decreases n - j,
        {
            j = j + 1;
        }
        proof {
            assert forall|p: int| 0 <= p < j - start implies sfx[p] != ',' by {
                assert(sfx[p] == text@[start + p]);
            }
            if j < n {
                assert(sfx[j - start] == text@[j as int]);
            }
            lemma_first_comma_at(sfx, j - start);
            assert(sfx.subrange(0, j - start) =~= text@.subrange(start as int, j as int));
        }
        let ghost tokv = text@.subrange(start as int, j as int);
        proof {
            assert(toks.skip(k)[0] == toks[k]);
            assert(toks[k] == tokv);
        }
        let tok = text.substring_char(start, j);
        let outcome = classify_token(tok);
        pos = pos + 1;
        proof {
            assert(toks.take(k + 1) =~= toks.take(k) + seq![toks[k]]);
            assert(toks.take(k).len() == k);
            lemma_ports_of_concat(toks.take(k), seq![tokv]);
            lemma_diags_of_concat(toks.take(k), seq![tokv], 1);
            lemma_singleton_models(tokv, (k + 1) as nat);
        }
        match outcome {
            TokenOutcome::Empty => {
                proof {
                    assert(ports_of(toks.take(k)) + Seq::<u16>::empty() =~= ports_of(
                        toks.take(k),
                    ));
                    assert(diags_of(toks.take(k), 1) + Seq::<DiagView>::empty() =~= diags_of(
                        toks.take(k),
                        1,
                    ));
                }
            },
            TokenOutcome::Port(p) => {
                out.push(p);
                proof {
                    let t = trim(tokv);
                    assert(out@ =~= ports_of(toks.take(k)) + seq![numeric_value(t) as u16]);
                    assert(diags_of(toks.take(k), 1) + Seq::<DiagView>::empty() =~= diags_of(
                        toks.take(k),
                        1,
                    ));
                }
            },
            TokenOutcome::Invalid(raw, reason) => {
                let diag = ParseDiagnostic { position: pos, token: raw, reason };
                diags.push(diag);
                proof {
                    let t = trim(tokv);
                    let d0 = DiagView { position: (k + 1) as nat, token: t, reason: reason_for(t) };
                    assert(ports_of(toks.take(k)) + Seq::<u16>::empty() =~= ports_of(
                        toks.take(k),
                    ));
                    assert(diag@ == d0);
                    assert(views_of_diags(diags@) =~= diags_of(toks.take(k), 1) + seq![d0]);
                }
            },
        }
        proof {
            assert(out@ == ports_of(toks.take(k + 1)));
            assert(views_of_diags(diags@) == diags_of(toks.take(k + 1), 1));
            if j < n {
                assert(split_commas(sfx) == seq![tokv] + split_commas(
                    sfx.subrange(j - start + 1, sfx.len() as int),
                ));
                assert(sfx.subrange(j - start + 1, sfx.len() as int) =~= text@.subrange(
                    j as int + 1,
                    n as int,
                ));
                assert(toks.skip(k + 1) =~= toks.skip(k).drop_first());
                assert(toks.skip(k + 1) == split_commas(text@.subrange(j as int + 1, n as int)));
            } else {
                assert(split_commas(sfx) == seq![tokv]);
                assert(toks.skip(k).len() == 1);
                assert(k + 1 == toks.len());
            }
        }
        start = j + 1;
        proof {
            k = k + 1;
        }
    }
    proof {
        assert(toks.take(k) =~= toks);
    }
    (out, diags)
}

/// Parses the knock-delay text as a decimal number of milliseconds; the text
/// is trimmed first, and a value that does not fit an unsigned 64-bit
/// integer, or is not a number at all, is rejected.
pub fn parse_delay(text: &str) -> (r: Option<u64>)
    ensures
        ({
            let t = trim(text@);
            match r {
                Some(v) => is_numeric_token(t) && numeric_value(t) <= u64::MAX && v
                    == numeric_value(t),
                None => !(is_numeric_token(t) && numeric_value(t) <= u64::MAX),
            }
        }),
{
    let n = text.unicode_len();
    let mut a: usize = 0;
    while a < n && is_space(text.get_char(a))
        invariant
            a <= n,
            n == text@.len(),
            forall|j: int| 0 <= j < a ==> is_space_char(#[trigger] text@[j]),
        decreases n - a,
    {
        a = a + 1;
    }
    let mut b: usize = n;
    while b > a && is_space(text.get_char(b - 1))
        invariant
            a <= b <= n,
            n == text@.len(),
            forall|j: int| b <= j < n ==> is_space_char(#[trigger] text@[j]),
        decreases b,
    {
        b = b - 1;
    }
    proof {
        lemma_trim_is_subrange(text@, a as int, b as int);
    }
    let ghost t = trim(text@);
    assert(t =~= text@.subrange(a as int, b as int));
    if a == b {
        return None;
    }
    let d: usize = if text.get_char(a) == '+' {
        a + 1
    } else {
        a
    };
    let ghost body = numeric_body(t);
    proof {
        assert(body =~= text@.subrange(d as int, b as int));
    }
    if d == b {
        return None;
    }
    let mut i: usize = d;
    // value of the digits so far, saturated once past the 64-bit range
    let mut acc: u128 = 0;
    let cap: u128 = u64::MAX as u128;
    while i < b
        invariant
            d <= i <= b <= n,
            d < b,
            n == text@.len(),
            t == trim(text@),
            body == numeric_body(t),
            body =~= text@.subrange(d as int, b as int),
            t =~= text@.subrange(a as int, b as int),
            a <= d <= a + 1,
            cap == u64::MAX as u128,
            forall|j: int| d <= j < i ==> is_digit_char(#[trigger] text@[j]),
            acc <= cap + 1,
            digits_value(text@.subrange(d as int, i as int)) <= u64::MAX ==> acc == digits_value(
                text@.subrange(d as int, i as int),
            ),
            digits_value(text@.subrange(d as int, i as int)) > u64::MAX ==> acc == cap + 1,
        decreases b - i,
    {
        let c = text.get_char(i);
        if !is_digit(c) {
            proof {
                assert(body[i - d] == text@[i as int]);
                assert(!all_digits(body));
            }
            return None;
        }
        let dv: u128 = (c as u32 - '0' as u32) as u128;
        proof {
            let pre = text@.subrange(d as int, i as int);
            let post = text@.subrange(d as int, i as int + 1);
            assert(post =~= pre.push(text@[i as int]));
            assert(post.drop_last() =~= pre);
            assert(digits_value(post) == digits_value(pre) * 10 + digit_value(text@[i as int]));
        }
        let wide: u128 = acc * 10 + dv;
        if wide > cap {
            acc = cap + 1;
        } else {
            acc = wide;
        }
        i = i + 1;
    }
    proof {
        assert(all_digits(body));
        assert(is_numeric_token(t));
        assert(numeric_value(t) == digits_value(text@.subrange(d as int, b as int)));
    }
    if acc <= cap {
        Some(acc as u64)
    } else {
        None
    }
}

/// A token that is skipped silently: blank once trimmed.
pub open spec fn token_skipped(t: Seq<char>) -> bool {
    trim(t).len() == 0
}

/// A token that draws a diagnostic: non-blank but not a valid port.
pub open spec fn token_malformed(t: Seq<char>) -> bool {
    trim(t).len() > 0 && !token_kept(trim(t))
}

/// A token that yields a port.
pub open spec fn token_valid(t: Seq<char>) -> bool {
    token_kept(trim(t))
}

pub open spec fn malformed_count(toks: Seq<Seq<char>>) -> nat
    decreases toks.len(),
{
    if toks.len() == 0 {
        0
    } else {
        ((if token_malformed(toks[0]) {
            1int
        } else {
            0int
        }) + malformed_count(toks.drop_first())) as nat
    }
}

pub open spec fn valid_count(toks: Seq<Seq<char>>) -> nat
    decreases toks.len(),
{
    if toks.len() == 0 {
        0
    } else {
        ((if token_valid(toks[0]) {
            1int
        } else {
            0int
        }) + valid_count(toks.drop_first())) as nat
    }
}

/// Parsing never gives up on a list. There is exactly one diagnostic per
/// malformed token and exactly one port per well-formed token; each
/// diagnostic carries the 1-based position of its own token, that token's
/// trimmed text and the reason it was rejected; and the diagnostics come in
/// strictly ascending position order.
pub proof fn lemma_parse_reports_each_malformed_token(toks: Seq<Seq<char>>, pos: nat)
    ensures
        diags_of(toks, pos).len() == malformed_count(toks),
        ports_of(toks).len() == valid_count(toks),
        forall|j: int| 0 <= j < diags_of(toks, pos).len() ==> {
            let d = #[trigger] diags_of(toks, pos)[j];
            &&& pos <= d.position < pos + toks.len()
            &&& token_malformed(toks[d.position - pos])
            &&& d.token == trim(toks[d.position - pos])
            &&& d.reason == reason_for(trim(toks[d.position - pos]))
        },
        forall|j1: int, j2: int|
            0 <= j1 < j2 < diags_of(toks, pos).len() ==> diags_of(toks, pos)[j1].position
                < diags_of(toks, pos)[j2].position,
    decreases toks.len(),
{
    if toks.len() == 0 {
    } else {
        let rest = toks.drop_first();
        lemma_parse_reports_each_malformed_token(rest, pos + 1);
        let t = trim(toks[0]);
        let ds = diags_of(toks, pos);
        let dr = diags_of(rest, pos + 1);
        if t.len() == 0 || token_kept(t) {
            assert forall|j: int| 0 <= j < ds.len() implies {
                let d = #[trigger] ds[j];
                &&& pos <= d.position < pos + toks.len()
                &&& token_malformed(toks[d.position - pos])
                &&& d.token == trim(toks[d.position - pos])
                &&& d.reason == reason_for(trim(toks[d.position - pos]))
            } by {
                assert(ds[j] == dr[j]);
                assert(rest[ds[j].position - (pos + 1)] == toks[ds[j].position - pos]);
            }
        } else {
            let d0 = DiagView { position: pos, token: t, reason: reason_for(t) };
            assert(ds == seq![d0] + dr);
            assert forall|j: int| 0 <= j < ds.len() implies {
                let d = #[trigger] ds[j];
                &&& pos <= d.position < pos + toks.len()
                &&& token_malformed(toks[d.position - pos])
                &&& d.token == trim(toks[d.position - pos])
                &&& d.reason == reason_for(trim(toks[d.position - pos]))
            } by {
                if j == 0 {
                    assert(ds[0] == d0);
                } else {
                    assert(ds[j] == dr[j - 1]);
                    assert(rest[ds[j].position - (pos + 1)] == toks[ds[j].position - pos]);
                }
            }
        }
    }
}

/// Omitting one token that yields no port (blank or malformed) leaves the
/// port sequence unchanged: the well-formed tokens on either side are still
/// included, in their original order.
pub proof fn lemma_rejected_token_omitted(toks: Seq<Seq<char>>, i: int)
    requires
        0 <= i < toks.len(),
        !token_valid(toks[i]),
    ensures
        ports_of(toks) == ports_of(toks.remove(i)),
    decreases toks.len(),
{
    if i == 0 {
        assert(toks.remove(0) =~= toks.drop_first());
    } else {
        lemma_rejected_token_omitted(toks.drop_first(), i - 1);
        assert(toks.remove(i).drop_first() =~= toks.drop_first().remove(i - 1));
        assert(toks.remove(i)[0] == toks[0]);
    }
}

} // verus!
