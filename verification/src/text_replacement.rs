//! Text replacement rules applied to transcriptions: escape sequences in the
//! rule text, plain (case-sensitive or not) and regular-expression rules.
use vstd::prelude::*;
use crate::numfmt::pow16;
use crate::text::{
    chars_of, copy_string, lowercase, matches_at, push_str, replace_all, replace_str, str_to_string, string_of,
    to_lowercase,
};
use vstd::string::StringSliceAdditionalSpecFns;
use vstd::utf8::{decode_utf8, encode_utf8, encode_utf8_decode_utf8, is_char_boundary};

verus! {

/// `c` is an ASCII hex digit, either case.
pub open spec fn is_hex_digit(c: char) -> bool {
    ('0' <= c && c <= '9') || ('a' <= c && c <= 'f') || ('A' <= c && c <= 'F')
}

/// The value of a hex digit.
pub open spec fn hex_digit_value(c: char) -> nat {
    if '0' <= c && c <= '9' {
        (c as nat - '0' as nat) as nat
    } else if 'a' <= c && c <= 'f' {
        (c as nat - 'a' as nat + 10) as nat
    } else {
        (c as nat - 'A' as nat + 10) as nat
    }
}

/// The value of a run of hex digits.
pub open spec fn hex_value(d: Seq<char>) -> nat
    decreases d.len(),
{
    if d.len() == 0 {
        0
    } else {
        hex_value(d.drop_last()) * 16 + hex_digit_value(d.last())
    }
}

/// The number of hex digits (at most 6) that follow position `i + k` of `t`,
/// plus `k`.
pub open spec fn hex_run(t: Seq<char>, i: int, k: nat) -> nat
    decreases 6 - k,
{
    if k < 6 && 0 <= i + k < t.len() && is_hex_digit(t[i + k]) {
        hex_run(t, i, k + 1)
    } else {
        k
    }
}

/// A Unicode scalar value.
pub open spec fn valid_scalar(cp: nat) -> bool {
    cp <= 0x10FFFF && !(0xD800 <= cp && cp <= 0xDFFF)
}

/// What `\u{digits}` stands for: the character, or the sequence kept as
/// written when the digits name none.
pub open spec fn unicode_piece(digits: Seq<char>) -> Seq<char> {
    if digits.len() > 0 && valid_scalar(hex_value(digits)) {
        seq![hex_value(digits) as char]
    } else {
        seq!['\\', 'u', '{'] + digits + seq!['}']
    }
}

pub proof fn lemma_hex_run_bounds(t: Seq<char>, i: int, k: nat)
    requires
        k <= 6,
        0 <= i,
        i + k <= t.len(),
    ensures
        k <= hex_run(t, i, k) <= 6,
        i + hex_run(t, i, k) <= t.len(),
        forall|j: int| i + k <= j < i + hex_run(t, i, k) ==> #[trigger] is_hex_digit(t[j]),
    decreases 6 - k,
{
    if k < 6 && 0 <= i + k < t.len() && is_hex_digit(t[i + k]) {
        lemma_hex_run_bounds(t, i, k + 1);
    }
}

/// The position after a `\u{...}` sequence at the start of `s`.
pub open spec fn unicode_end(s: Seq<char>) -> int {
    let k = hex_run(s, 3, 0) as int;
    if 3 + k < s.len() && s[3 + k] == '}' {
        4 + k
    } else {
        3 + k
    }
}

/// `s` with its escape sequences replaced: `\n`, `\r`, `\r\n` (written
/// `\r\n` in the rule), `\t`, `\\` and `\u{XXXX}` (one to six hex digits);
/// any other backslash is kept.
pub open spec fn escapes(s: Seq<char>) -> Seq<char>
    decreases s.len(),
{
    if s.len() == 0 {
        Seq::empty()
    } else if s[0] != '\\' || s.len() == 1 {
        seq![s[0]] + escapes(s.skip(1))
    } else if s[1] == 'n' {
        seq!['\n'] + escapes(s.skip(2))
    } else if s[1] == 'r' {
        if s.len() >= 4 && s[2] == '\\' && s[3] == 'n' {
            seq!['\r', '\n'] + escapes(s.skip(4))
        } else {
            seq!['\r'] + escapes(s.skip(2))
        }
    } else if s[1] == 't' {
        seq!['\t'] + escapes(s.skip(2))
    } else if s[1] == '\\' {
        seq!['\\'] + escapes(s.skip(2))
    } else if s[1] == 'u' {
        if s.len() > 2 && s[2] == '{' {
            proof {
                lemma_hex_run_bounds(s, 3, 0);
            }
            unicode_piece(s.subrange(3, 3 + hex_run(s, 3, 0) as int)) + escapes(s.skip(unicode_end(s)))
        } else {
            seq!['\\', 'u'] + escapes(s.skip(2))
        }
    } else {
        seq!['\\'] + escapes(s.skip(1))
    }
}

/// `char::from_u32`: the character with code point `cp`, if it is a Unicode
/// scalar value (std documents `None` for surrogates and values above
/// `char::MAX`).
#[verifier::external_body]
fn char_from_u32(cp: u32) -> (r: Option<char>)
    ensures
        r == if valid_scalar(cp as nat) {
            Some(cp as char)
        } else {
            None::<char>
        },
{
    char::from_u32(cp)
}

fn is_hex_digit_exec(c: char) -> (r: bool)
    ensures
        r == is_hex_digit(c),
{
    ('0' <= c && c <= '9') || ('a' <= c && c <= 'f') || ('A' <= c && c <= 'F')
}

proof fn lemma_hex_value_bound(d: Seq<char>)
    requires
        forall|j: int| 0 <= j < d.len() ==> #[trigger] is_hex_digit(d[j]),
    ensures
        hex_value(d) < pow16(d.len()),
    decreases d.len(),
{
    if d.len() > 0 {
        assert forall|j: int| 0 <= j < d.drop_last().len() implies #[trigger] is_hex_digit(
            d.drop_last()[j],
        ) by {
            assert(d.drop_last()[j] == d[j]);
        }
        lemma_hex_value_bound(d.drop_last());
        assert(is_hex_digit(d[d.len() - 1]));
        assert(hex_digit_value(d.last()) < 16);
        assert(hex_value(d) < pow16(d.len())) by (nonlinear_arith)
            requires
                hex_value(d) == hex_value(d.drop_last()) * 16 + hex_digit_value(d.last()),
                hex_value(d.drop_last()) < pow16((d.len() - 1) as nat),
                hex_digit_value(d.last()) < 16,
                pow16(d.len()) == 16 * pow16((d.len() - 1) as nat),
        ;
    }
}

/// The value of the hex digits `v[a..b]` (at most six of them).
fn hex_value_exec(v: &[char], a: usize, b: usize) -> (r: u32)
    requires
        a <= b <= v.len(),
        b - a <= 6,
        forall|j: int| a <= j < b ==> #[trigger] is_hex_digit(v@[j]),
    ensures
        r == hex_value(v@.subrange(a as int, b as int)),
{
    let mut val: u32 = 0;
    let mut i = a;
    assert(pow16(6) == 0x100_0000) by {
        reveal_with_fuel(pow16, 7);
    }
    while i < b
        invariant
            a <= i <= b <= v.len(),
            b - a <= 6,
            forall|j: int| a <= j < b ==> #[trigger] is_hex_digit(v@[j]),
            val == hex_value(v@.subrange(a as int, i as int)),
            pow16(6) == 0x100_0000,
        decreases b - i,
    {
        let ghost d = v@.subrange(a as int, i + 1);
        assert(d.drop_last() =~= v@.subrange(a as int, i as int));
        assert(d.last() == v@[i as int]);
        assert forall|j: int| 0 <= j < d.len() implies #[trigger] is_hex_digit(d[j]) by {
            assert(d[j] == v@[a + j]);
        }
        proof {
            lemma_hex_value_bound(d);
            lemma_pow16_mono(d.len(), 6);
        }
        let c = v[i];
        assert(is_hex_digit(c));
        let dv: u32 = if '0' <= c && c <= '9' {
            (c as u32) - ('0' as u32)
        } else if 'a' <= c && c <= 'f' {
            (c as u32) - ('a' as u32) + 10
        } else {
            (c as u32) - ('A' as u32) + 10
        };
        val = val * 16 + dv;
        i = i + 1;
    }
    val
}

proof fn lemma_pow16_mono(a: nat, b: nat)
    requires
        a <= b,
    ensures
        pow16(a) <= pow16(b),
    decreases b,
{
    if a < b {
        lemma_pow16_mono(a, (b - 1) as nat);
    }
}

proof fn lemma_escapes_skip(v: Seq<char>, i: int, m: int)
    requires
        0 <= i,
        0 <= m,
        i + m <= v.len(),
    ensures
        v.skip(i).skip(m) == v.skip(i + m),
{
    assert(v.skip(i).skip(m) =~= v.skip(i + m));
}

/// `s` with its escape sequences replaced.
pub fn process_escapes(s: &str) -> (r: String)
    ensures
        r@ == escapes(s@),
{
    let v = crate::text::chars_of(s);
    let n = v.len();
    let mut out: Vec<char> = Vec::new();
    let mut i: usize = 0;
    assert(v@.skip(0) =~= v@);
    while i < n
        invariant
            n == v.len(),
            0 <= i <= n,
            out@ + escapes(v@.skip(i as int)) == escapes(v@),
        decreases n - i,
    {
        let ghost t = v@.skip(i as int);
        assert(t.len() == n - i);
        assert(t[0] == v@[i as int]);
        let c = v[i];
        if c != '\\' || i + 1 == n {
            out.push(c);
            proof {
                lemma_escapes_skip(v@, i as int, 1);
            }
            i = i + 1;
        } else {
            assert(t[1] == v@[i + 1]);
            let d = v[i + 1];
            if d == 'n' {
                out.push('\n');
                proof {
                    lemma_escapes_skip(v@, i as int, 2);
                }
                i = i + 2;
            } else if d == 'r' {
                if n - i > 3 && v[i + 2] == '\\' && v[i + 3] == 'n' {
                    assert(t[2] == v@[i + 2] && t[3] == v@[i + 3]);
                    out.push('\r');
                    out.push('\n');
                    proof {
                        lemma_escapes_skip(v@, i as int, 4);
                    }
                    i = i + 4;
                } else {
                    proof {
                        if t.len() >= 4 {
                            assert(t[2] == v@[i + 2] && t[3] == v@[i + 3]);
                        }
                    }
                    out.push('\r');
                    proof {
                        lemma_escapes_skip(v@, i as int, 2);
                    }
                    i = i + 2;
                }
            } else if d == 't' {
                out.push('\t');
                proof {
                    lemma_escapes_skip(v@, i as int, 2);
                }
                i = i + 2;
            } else if d == '\\' {
                out.push('\\');
                proof {
                    lemma_escapes_skip(v@, i as int, 2);
                }
                i = i + 2;
            } else if d == 'u' {
                if n - i > 2 && v[i + 2] == '{' {
                    assert(t[2] == v@[i + 2]);
                    let start = i + 3;
                    let mut k: usize = 0;
                    proof {
                        lemma_hex_run_bounds(t, 3, 0);
                    }
                    while k < 6 && start + k < n && is_hex_digit_exec(v[start + k])
                        invariant
                            n == v.len(),
                            start == i + 3,
                            start <= n,
                            t == v@.skip(i as int),
                            k <= 6,
                            start + k <= n,
                            hex_run(t, 3, 0) == hex_run(t, 3, k as nat),
                            forall|j: int| start <= j < start + k ==> #[trigger] is_hex_digit(v@[j]),
                        decreases 6 - k,
                    {
                        assert(t[3 + k] == v@[start + k]);
                        k = k + 1;
                    }
                    proof {
                        if k < 6 && start + k < n {
                            assert(t[3 + k] == v@[start + k]);
                        }
                        assert(hex_run(t, 3, k as nat) == k);
                    }
                    let end = start + k;
                    assert(t.subrange(3, 3 + k as int) =~= v@.subrange(start as int, end as int));
                    let closed = end < n && v[end] == '}';
                    proof {
                        if end < n {
                            assert(t[3 + k] == v@[end as int]);
                        }
                    }
                    let mut pushed = false;
                    if k > 0 {
                        let cp = hex_value_exec(v.as_slice(), start, end);
                        match char_from_u32(cp) {
                            Some(ch) => {
                                out.push(ch);
                                pushed = true;
                            },
                            None => {},
                        }
                    }
                    if !pushed {
                        out.push('\\');
                        out.push('u');
                        out.push('{');
                        let digits = crate::text::slice_range(v.as_slice(), start, end);
                        crate::text::push_all(&mut out, digits.as_slice());
                        out.push('}');
                    }
                    let next = if closed {
                        end + 1
                    } else {
                        end
                    };
                    proof {
                        lemma_escapes_skip(v@, i as int, (next - i) as int);
                        assert(unicode_end(t) == next - i);
                    }
                    i = next;
                } else {
                    proof {
                        if t.len() > 2 {
                            assert(t[2] == v@[i + 2]);
                        }
                    }
                    out.push('\\');
                    out.push('u');
                    proof {
                        lemma_escapes_skip(v@, i as int, 2);
                    }
                    i = i + 2;
                }
            } else {
                out.push('\\');
                proof {
                    lemma_escapes_skip(v@, i as int, 1);
                }
                i = i + 1;
            }
        }
    }
    assert(v@.skip(n as int) =~= Seq::<char>::empty());
    assert(out@ + Seq::<char>::empty() =~= out@);
    crate::text::string_of(out.as_slice())
}

proof fn lemma_escapes_nonempty(s: Seq<char>)
    requires
        s.len() > 0,
    ensures
        escapes(s).len() > 0,
{
    if s[0] == '\\' && s.len() > 1 && s[1] == 'u' && s.len() > 2 && s[2] == '{' {
        let d = s.subrange(3, 3 + hex_run(s, 3, 0) as int);
        assert(unicode_piece(d).len() > 0);
    }
}

#[verifier::external_type_specification]
#[verifier::external_body]
pub struct ExRegex(regex::Regex);

/// Whether `pattern` compiles (`regex::Regex::new` succeeds on it: a valid
/// pattern within the default size limit).
pub uninterp spec fn regex_compiles(pattern: Seq<char>) -> bool;

/// What `Regex::replace_all` of the regex compiled from `pattern` gives for
/// `text` and the replacement template `rep` (`$1`, `$name` refer to groups).
pub uninterp spec fn regex_replaced(pattern: Seq<char>, text: Seq<char>, rep: Seq<char>) -> Seq<char>;

/// Calls `regex::Regex::new`; whether it succeeds is named `regex_compiles`.
#[verifier::external_body]
fn compile_regex(pattern: &str) -> (r: Option<regex::Regex>)
    ensures
        r is Some == regex_compiles(pattern@),
{
    regex::Regex::new(pattern).ok()
}

/// A compiled regular expression, with the pattern it was compiled from.
pub struct CompiledRegex {
    re: regex::Regex,
    pattern: Ghost<Seq<char>>,
}

impl View for CompiledRegex {
    type V = Seq<char>;

    closed spec fn view(&self) -> Seq<char> {
        self.pattern@
    }
}

impl CompiledRegex {
    /// Compiles `pattern`; `None` when it does not compile.
    pub fn new(pattern: &str) -> (r: Option<Self>)
        ensures
            r is Some == regex_compiles(pattern@),
            r is Some ==> r->0@ == pattern@,
    {
        match compile_regex(pattern) {
            Some(re) => Some(CompiledRegex { re, pattern: Ghost(pattern@) }),
            None => None,
        }
    }
}

/// Calls `Regex::replace_all` and takes the result as a `String`; the
/// result is named `regex_replaced` of the pattern, the text and the
/// replacement.
#[verifier::external_body]
fn regex_replace_all(re: &CompiledRegex, text: &str, rep: &str) -> (r: String)
    ensures
        r@ == regex_replaced(re@, text@, rep@),
{
    re.re.replace_all(text, rep).to_string()
}

/// Case-insensitive replacement as the rule engine does it, on the UTF-8
/// bytes of the text `rb`: the lowercased text is searched for the lowercased
/// pattern `lower_from`, and the byte range found, `from_len` bytes long, is
/// cut from the original text. `None` where a cut falls inside a character
/// (the engine panics there).
pub open spec fn ci_replace(rb: Seq<u8>, from_len: nat, lower_from: Seq<u8>, to: Seq<char>) -> Option<
    Seq<char>,
>
    decreases rb.len(),
{
    match crate::text::find(encode_utf8(lowercase(decode_utf8(rb))), lower_from) {
        None => Some(decode_utf8(rb)),
        Some(start) => {
            let end = start + from_len;
            if 0 <= start && from_len > 0 && end <= rb.len() && is_char_boundary(rb, start) && is_char_boundary(
                rb,
                end,
            ) {
                match ci_replace(rb.subrange(end, rb.len() as int), from_len, lower_from, to) {
                    Some(rest) => Some(decode_utf8(rb.subrange(0, start)) + to + rest),
                    None => None,
                }
            } else {
                None
            }
        },
    }
}

/// The characters of a string slice, from its bytes.
proof fn lemma_decode(s: &str)
    ensures
        decode_utf8(s.spec_bytes()) == s@,
{
    encode_utf8_decode_utf8(s@);
}

/// Case-insensitive replacement of `from` by `to` in `text`; `None` where
/// the engine would cut inside a character.
fn replace_case_insensitive(text: &str, from: &str, to: &str) -> (r: Option<String>)
    ensures
        match r {
            Some(x) => ci_replace(
                text.spec_bytes(),
                from.spec_bytes().len(),
                encode_utf8(lowercase(from@)),
                to@,
            ) == Some(x@),
            None => ci_replace(
                text.spec_bytes(),
                from.spec_bytes().len(),
                encode_utf8(lowercase(from@)),
                to@,
            ) is None,
        },
{
    let lower_from = to_lowercase(from);
    let lfb = lower_from.as_str().as_bytes();
    let from_len = from.as_bytes().len();
    let ghost fl = from.spec_bytes().len();
    let ghost lf = encode_utf8(lowercase(from@));
    let ghost total = ci_replace(text.spec_bytes(), fl, lf, to@);
    let mut out: Vec<char> = Vec::new();
    let mut remaining: &str = text;
    proof {
        match total {
            Some(x) => {
                assert(Seq::<char>::empty() + x =~= x);
            },
            None => {},
        }
    }
    loop
        invariant
            from_len == fl,
            fl == from.spec_bytes().len(),
            lf == encode_utf8(lowercase(from@)),
            lfb@ == lf,
            total == ci_replace(text.spec_bytes(), fl, lf, to@),
            total == match ci_replace(remaining.spec_bytes(), fl, lf, to@) {
                Some(rest) => Some(out@ + rest),
                None => None::<Seq<char>>,
            },
        decreases remaining.spec_bytes().len(),
    {
        proof {
            lemma_decode(remaining);
        }
        let lowered = to_lowercase(remaining);
        let lb = lowered.as_str().as_bytes();
        assert(lb@ == encode_utf8(lowercase(decode_utf8(remaining.spec_bytes()))));
        match crate::text::find_bytes(lb, lfb) {
            None => {
                let ghost before = out@;
                push_str(&mut out, remaining);
                let r = string_of(out.as_slice());
                assert(total == Some(r@));
                return Some(r);
            },
            Some(start) => {
                let n = remaining.as_bytes().len();
                assert(n == remaining.spec_bytes().len());
                if from_len == 0 || start > n || from_len > n - start {
                    assert(total is None);
                    return None;
                }
                let end = start + from_len;
                if !remaining.is_char_boundary(start) || !remaining.is_char_boundary(end) {
                    assert(total is None);
                    return None;
                }
                let (head, _) = remaining.split_at(start);
                let (_, tail) = remaining.split_at(end);
                proof {
                    lemma_decode(head);
                }
                let ghost rest_spec = ci_replace(tail.spec_bytes(), fl, lf, to@);
                let ghost before = out@;
                push_str(&mut out, head);
                push_str(&mut out, to);
                proof {
                    match rest_spec {
                        Some(rest) => {
                            assert(before + (head@ + to@ + rest) =~= out@ + rest);
                        },
                        None => {},
                    }
                }
                remaining = tail;
            },
        }
    }
}

/// A text replacement rule.
#[derive(Debug)]
pub struct TextReplacement {
    pub id: String,
    /// The text searched for (escape sequences allowed), or the regular
    /// expression when `is_regex`.
    pub from: String,
    /// The replacement (escape sequences allowed; `$1` etc. for regexes).
    pub to: String,
    pub enabled: bool,
    pub case_sensitive: bool,
    pub is_regex: bool,
}

/// Model of a rule.
pub struct RuleView {
    pub from: Seq<char>,
    pub to: Seq<char>,
    pub enabled: bool,
    pub case_sensitive: bool,
    pub is_regex: bool,
}

impl View for TextReplacement {
    type V = RuleView;

    open spec fn view(&self) -> RuleView {
        RuleView {
            from: self.from@,
            to: self.to@,
            enabled: self.enabled,
            case_sensitive: self.case_sensitive,
            is_regex: self.is_regex,
        }
    }
}

/// The pattern a regex rule compiles: case-insensitive ones get `(?i)`.
pub open spec fn regex_pattern(rule: RuleView) -> Seq<char> {
    if rule.case_sensitive {
        rule.from
    } else {
        "(?i)"@ + rule.from
    }
}

/// The text after applying `rule`; `None` where the engine panics.
pub open spec fn rule_result(rule: RuleView, text: Seq<char>) -> Option<Seq<char>> {
    if !rule.enabled || rule.from.len() == 0 {
        Some(text)
    } else if rule.is_regex {
        if regex_compiles(regex_pattern(rule)) {
            Some(regex_replaced(regex_pattern(rule), text, escapes(rule.to)))
        } else {
            Some(text)
        }
    } else if rule.case_sensitive {
        Some(replace_all(text, escapes(rule.from), escapes(rule.to)))
    } else {
        ci_replace(
            encode_utf8(text),
            encode_utf8(escapes(rule.from)).len(),
            encode_utf8(lowercase(escapes(rule.from))),
            escapes(rule.to),
        )
    }
}

/// The rule is plain and case-insensitive: the only kind that can fail.
pub open spec fn is_case_insensitive_plain(rule: RuleView) -> bool {
    rule.enabled && rule.from.len() > 0 && !rule.is_regex && !rule.case_sensitive
}

impl TextReplacement {
    /// Applies the rule to `text`, or `None` where a case-insensitive match
    /// would be cut inside a character.
    pub fn try_apply(&self, text: &str) -> (r: Option<String>)
        ensures
            match r {
                Some(x) => rule_result(self@, text@) == Some(x@),
                None => rule_result(self@, text@) is None,
            },
    {
        let from_chars = chars_of(self.from.as_str());
        if !self.enabled || from_chars.len() == 0 || self.is_regex || self.case_sensitive {
            return Some(self.apply(text));
        }
        let to_processed = process_escapes(self.to.as_str());
        let from_processed = process_escapes(self.from.as_str());
        replace_case_insensitive(text, from_processed.as_str(), to_processed.as_str())
    }

    /// Applies the rule to `text`: every occurrence of `from` (after escape
    /// processing, or every match of the regex) is replaced by `to`. A
    /// disabled rule, an empty `from` or a regex that does not compile leave
    /// the text as it is.
    pub fn apply(&self, text: &str) -> (r: String)
        requires
            rule_result(self@, text@) is Some,
        ensures
            rule_result(self@, text@) == Some(r@),
    {
        let from_chars = chars_of(self.from.as_str());
        if !self.enabled || from_chars.len() == 0 {
            return str_to_string(text);
        }
        let to_processed = process_escapes(self.to.as_str());
        if self.is_regex {
            let pattern = if self.case_sensitive {
                copy_string(&self.from)
            } else {
                let mut p = chars_of("(?i)");
                push_str(&mut p, self.from.as_str());
                string_of(p.as_slice())
            };
            assert(pattern@ == regex_pattern(self@));
            match CompiledRegex::new(pattern.as_str()) {
                Some(re) => regex_replace_all(&re, text, to_processed.as_str()),
                None => str_to_string(text),
            }
        } else {
            let from_processed = process_escapes(self.from.as_str());
            proof {
                lemma_escapes_nonempty(self.from@);
            }
            if self.case_sensitive {
                let t = chars_of(text);
                let out = replace_str(t.as_slice(), from_processed.as_str(), to_processed.as_str());
                string_of(out.as_slice())
            } else {
                match replace_case_insensitive(text, from_processed.as_str(), to_processed.as_str()) {
                    Some(x) => x,
                    None => {
                        proof {
                            assert(false);
                        }
                        str_to_string(text)
                    },
                }
            }
        }
    }
}

/// The text after the enabled rules of `rules` were applied in order; `None`
/// where one of them panics.
pub open spec fn rules_result(text: Seq<char>, rules: Seq<RuleView>) -> Option<Seq<char>>
    decreases rules.len(),
{
    if rules.len() == 0 {
        Some(text)
    } else {
        match rules_result(text, rules.drop_last()) {
            Some(t) => if rules.last().enabled {
                rule_result(rules.last(), t)
            } else {
                Some(t)
            },
            None => None,
        }
    }
}

/// Model of a rule list.
pub open spec fn rules_view(rules: Seq<TextReplacement>) -> Seq<RuleView> {
    rules.map_values(|r: TextReplacement| r@)
}

proof fn lemma_rules_step(text: Seq<char>, rules: Seq<RuleView>, i: int)
    requires
        0 <= i < rules.len(),
    ensures
        rules_result(text, rules.take(i + 1)) == match rules_result(text, rules.take(i)) {
            Some(t) => if rules[i].enabled {
                rule_result(rules[i], t)
            } else {
                Some(t)
            },
            None => None,
        },
{
    assert(rules.take(i + 1).drop_last() =~= rules.take(i));
}

/// Applies the enabled rules in order.
pub fn apply_text_replacements(text: &str, replacements: &[TextReplacement]) -> (r: String)
    requires
        rules_result(text@, rules_view(replacements@)) is Some,
    ensures
        rules_result(text@, rules_view(replacements@)) == Some(r@),
{
    let ghost rv = rules_view(replacements@);
    let mut result = str_to_string(text);
    let mut i: usize = 0;
    assert(rv.take(0) =~= Seq::<RuleView>::empty());
    while i < replacements.len()
        invariant
            0 <= i <= replacements.len(),
            rv == rules_view(replacements@),
            rules_result(text@, rv) is Some,
            rules_result(text@, rv.take(i as int)) == Some(result@),
        decreases replacements.len() - i,
    {
        proof {
            lemma_rules_step(text@, rv, i as int);
            lemma_rules_prefix_some(text@, rv, (i + 1) as int);
        }
        let rule = &replacements[i];
        assert(rv[i as int] == rule@);
        if rule.enabled {
            result = rule.apply(result.as_str());
        }
        i = i + 1;
    }
    assert(rv.take(replacements.len() as int) =~= rv);
    result
}

/// A failed prefix makes the whole list fail.
proof fn lemma_rules_prefix_some(text: Seq<char>, rules: Seq<RuleView>, k: int)
    requires
        0 <= k <= rules.len(),
        rules_result(text, rules) is Some,
    ensures
        rules_result(text, rules.take(k)) is Some,
    decreases rules.len() - k,
{
    if k < rules.len() {
        lemma_rules_prefix_some(text, rules, k + 1);
        lemma_rules_step(text, rules, k);
    } else {
        assert(rules.take(k) =~= rules);
    }
}

/// No rule of the list is plain and case-insensitive.
fn none_case_insensitive(replacements: &[TextReplacement]) -> (r: bool)
    ensures
        r == forall|j: int|
            0 <= j < replacements@.len() ==> !is_case_insensitive_plain(#[trigger] replacements@[j]@),
{
    let mut i: usize = 0;
    while i < replacements.len()
        invariant
            0 <= i <= replacements.len(),
            forall|j: int| 0 <= j < i ==> !is_case_insensitive_plain(#[trigger] replacements@[j]@),
        decreases replacements.len() - i,
    {
        let rule = &replacements[i];
        let from_chars = chars_of(rule.from.as_str());
        if rule.enabled && from_chars.len() > 0 && !rule.is_regex && !rule.case_sensitive {
            assert(is_case_insensitive_plain(replacements@[i as int]@));
            return false;
        }
        i = i + 1;
    }
    true
}

/// Lists without case-insensitive plain rules never fail.
proof fn lemma_rules_total(text: Seq<char>, rules: Seq<RuleView>)
    requires
        forall|j: int| 0 <= j < rules.len() ==> !is_case_insensitive_plain(#[trigger] rules[j]),
    ensures
        rules_result(text, rules) is Some,
    decreases rules.len(),
{
    if rules.len() > 0 {
        assert forall|j: int| 0 <= j < rules.drop_last().len() implies !is_case_insensitive_plain(
            #[trigger] rules.drop_last()[j],
        ) by {
            assert(rules.drop_last()[j] == rules[j]);
        }
        lemma_rules_total(text, rules.drop_last());
        assert(!is_case_insensitive_plain(rules[rules.len() - 1]));
    }
}

/// Applies the enabled rules in order, or `None` where one of them would be
/// cut inside a character.
pub fn try_apply_text_replacements(text: &str, replacements: &[TextReplacement]) -> (r: Option<
    String,
>)
    ensures
        match r {
            Some(x) => rules_result(text@, rules_view(replacements@)) == Some(x@),
            None => rules_result(text@, rules_view(replacements@)) is None,
        },
{
    let ghost rv = rules_view(replacements@);
    if none_case_insensitive(replacements) {
        proof {
            assert forall|j: int| 0 <= j < rv.len() implies !is_case_insensitive_plain(
                #[trigger] rv[j],
            ) by {
                assert(rv[j] == replacements@[j]@);
            }
            lemma_rules_total(text@, rv);
        }
        return Some(apply_text_replacements(text, replacements));
    }
    let mut result = str_to_string(text);
    let mut i: usize = 0;
    assert(rv.take(0) =~= Seq::<RuleView>::empty());
    while i < replacements.len()
        invariant
            0 <= i <= replacements.len(),
            rv == rules_view(replacements@),
            rules_result(text@, rv.take(i as int)) == Some(result@),
        decreases replacements.len() - i,
    {
        proof {
            lemma_rules_step(text@, rv, i as int);
        }
        let rule = &replacements[i];
        assert(rv[i as int] == rule@);
        if rule.enabled {
            match rule.try_apply(result.as_str()) {
                Some(x) => {
                    result = x;
                },
                None => {
                    proof {
                        lemma_rules_none_extends(text@, rv, (i + 1) as int);
                    }
                    return None;
                },
            }
        }
        i = i + 1;
    }
    assert(rv.take(replacements.len() as int) =~= rv);
    Some(result)
}

/// Once a prefix fails, the whole list fails.
proof fn lemma_rules_none_extends(text: Seq<char>, rules: Seq<RuleView>, k: int)
    requires
        0 <= k <= rules.len(),
        rules_result(text, rules.take(k)) is None,
    ensures
        rules_result(text, rules) is None,
    decreases rules.len() - k,
{
    if k < rules.len() {
        lemma_rules_step(text, rules, k);
        lemma_rules_none_extends(text, rules, k + 1);
    } else {
        assert(rules.take(k) =~= rules);
    }
}

/// Text without a backslash has no escape sequence: processing leaves it
/// unchanged.
pub proof fn lemma_escapes_identity(s: Seq<char>)
    requires
        forall|i: int| 0 <= i < s.len() ==> #[trigger] s[i] != '\\',
    ensures
        escapes(s) == s,
    decreases s.len(),
{
    if s.len() > 0 {
        let t = s.skip(1);
        assert forall|i: int| 0 <= i < t.len() implies #[trigger] t[i] != '\\' by {
            assert(t[i] == s[i + 1]);
        }
        lemma_escapes_identity(t);
        assert(s[0] != '\\');
        assert(seq![s[0]] + t =~= s);
    }
}

/// A disabled rule, or one with nothing to search for, leaves the text as
/// it is.
pub proof fn lemma_inactive_rule_is_identity(rule: RuleView, text: Seq<char>)
    requires
        !rule.enabled || rule.from.len() == 0,
    ensures
        rule_result(rule, text) == Some(text),
{
}


/// The two-character sequence `\n` turns into a newline, `\t` into a tab,
/// `\\` into one backslash, `\r\n` into a carriage return and a newline,
/// and `\r` not followed by `\n` into a carriage return; what follows is
/// processed on its own.
pub proof fn lemma_simple_escapes(s: Seq<char>)
    ensures
        escapes(seq!['\\', 'n'] + s) == seq!['\n'] + escapes(s),
        escapes(seq!['\\', 't'] + s) == seq!['\t'] + escapes(s),
        escapes(seq!['\\', '\\'] + s) == seq!['\\'] + escapes(s),
        escapes(seq!['\\', 'r', '\\', 'n'] + s) == seq!['\r', '\n'] + escapes(s),
        !(s.len() >= 2 && s[0] == '\\' && s[1] == 'n') ==> escapes(seq!['\\', 'r'] + s) == seq!['\r'] + escapes(s),
{
    let a = seq!['\\', 'n'] + s;
    let b = seq!['\\', 't'] + s;
    let c = seq!['\\', '\\'] + s;
    let d = seq!['\\', 'r', '\\', 'n'] + s;
    let e = seq!['\\', 'r'] + s;
    assert(a.skip(2) =~= s);
    assert(b.skip(2) =~= s);
    assert(c.skip(2) =~= s);
    assert(d.skip(4) =~= s);
    assert(e.skip(2) =~= s);
}

/// Replacing a whole text that is exactly the pattern gives the replacement.
proof fn lemma_replace_whole(p: Seq<char>, r: Seq<char>)
    requires
        p.len() > 0,
    ensures
        replace_all(p, p, r) == r,
{
    assert(p.subrange(0, p.len() as int) =~= p);
    assert(matches_at(p, p, 0));
    let e = p.skip(p.len() as int);
    assert(e.len() == 0);
    assert(replace_all(e, p, r) == e);
    assert(replace_all(p, p, r) == r + replace_all(e, p, r));
    assert(r + e =~= r);
}

/// An enabled plain rule puts in the replacement text with its escapes
/// processed, whatever its case sensitivity: a case-sensitive rule replaces
/// every occurrence of the processed search text, left to right, by the
/// processed replacement, and a text that is exactly the search text comes
/// out as exactly the processed replacement (so a rule to `\n` gives a
/// newline, never a backslash).
pub proof fn lemma_plain_rule_inserts_processed_text(rule: RuleView, text: Seq<char>)
    requires
        rule.enabled,
        rule.from.len() > 0,
        !rule.is_regex,
    ensures
        rule.case_sensitive ==> rule_result(rule, text) == Some(replace_all(text, escapes(rule.from), escapes(rule.to))),
        rule.case_sensitive ==> rule_result(rule, escapes(rule.from)) == Some(escapes(rule.to)),
        !rule.case_sensitive ==> rule_result(rule, text) == ci_replace(
            encode_utf8(text),
            encode_utf8(escapes(rule.from)).len(),
            encode_utf8(lowercase(escapes(rule.from))),
            escapes(rule.to),
        ),
{
    lemma_escapes_nonempty(rule.from);
    lemma_replace_whole(escapes(rule.from), escapes(rule.to));
}

/// An enabled regex rule whose pattern compiles replaces the matches by the
/// replacement text with its escapes processed; one that does not compile
/// leaves the text as it is.
pub proof fn lemma_regex_rule_inserts_processed_text(rule: RuleView, text: Seq<char>)
    requires
        rule.enabled,
        rule.from.len() > 0,
        rule.is_regex,
    ensures
        regex_compiles(regex_pattern(rule)) ==> rule_result(rule, text) == Some(
            regex_replaced(regex_pattern(rule), text, escapes(rule.to)),
        ),
        !regex_compiles(regex_pattern(rule)) ==> rule_result(rule, text) == Some(text),
{
}


proof fn lemma_hex_run_exact(t: Seq<char>, i: int, k: nat, n: nat)
    requires
        0 <= i,
        k <= n <= 6,
        i + n <= t.len(),
        forall|j: int| i + k <= j < i + n ==> #[trigger] is_hex_digit(t[j]),
        n < 6 ==> i + n < t.len() && !is_hex_digit(t[i + n]),
    ensures
        hex_run(t, i, k) == n,
    decreases n - k,
{
    if k < n {
        assert(is_hex_digit(t[i + k]));
        lemma_hex_run_exact(t, i, k + 1, n);
    }
}

/// `\u{...}` with one to six hex digits naming a Unicode scalar value turns
/// into that one character; what follows is processed on its own.
pub proof fn lemma_unicode_escape(digits: Seq<char>, s: Seq<char>)
    requires
        1 <= digits.len() <= 6,
        forall|j: int| 0 <= j < digits.len() ==> #[trigger] is_hex_digit(digits[j]),
        valid_scalar(hex_value(digits)),
    ensures
        escapes(seq!['\\', 'u', '{'] + digits + seq!['}'] + s) == seq![hex_value(digits) as char] + escapes(s),
{
    let t = seq!['\\', 'u', '{'] + digits + seq!['}'] + s;
    let n = digits.len();
    assert forall|j: int| 3 <= j < 3 + n implies #[trigger] is_hex_digit(t[j]) by {
        assert(t[j] == digits[j - 3]);
    }
    assert(t[3 + n as int] == '}');
    lemma_hex_run_exact(t, 3, 0, n);
    assert(t.subrange(3, 3 + n as int) =~= digits);
    assert(unicode_end(t) == 4 + n);
    assert(t.skip(4 + n as int) =~= s);
    assert(t[0] == '\\' && t[1] == 'u' && t[2] == '{');
}

} // verus!
