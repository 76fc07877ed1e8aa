//! The value type for a port assignment: one port, or an inclusive range.
//!
//! A `PortSpec` renders to the canonical text form `"p"` or `"s-e"` and is
//! parsed back from that form, with surrounding whitespace around each number
//! tolerated. Parsing and rendering are exact inverses on canonical text; see
//! the round-trip lemmas at the bottom of this module.

use vstd::prelude::*;

verus! {

/// Either a single port or an inclusive range of ports.
///
/// A range is only ever built by `parse` with `start < end`; the type itself
/// does not rule a degenerate range out, so code that consumes arbitrary
/// values treats a range as the set `start..=end`, which may be empty.
#[derive(Clone, Copy, Debug, PartialEq, Eq, Structural)]
pub enum PortSpec {
    Single(u16),
    Range { start: u16, end: u16 },
}

/// Why a piece of port text was rejected.
#[derive(Clone, Copy, Debug, PartialEq, Eq, Structural)]
pub enum ParseError {
    /// Text without a dash that is not a decimal number up to 65535.
    InvalidPort,
    /// The part before the first dash is not a decimal number up to 65535.
    InvalidRangeStart,
    /// The part after the first dash is not a decimal number up to 65535.
    InvalidRangeEnd,
    /// Both bounds parsed but `start >= end`.
    StartNotLessThanEnd,
}

impl ParseError {
    /// A short human-readable description of the error.
    pub fn message(&self) -> (r: &'static str)
        ensures
            r@ == spec_message(*self),
    {
        match self {
            ParseError::InvalidPort => "Invalid port",
            ParseError::InvalidRangeStart => "Invalid start port",
            ParseError::InvalidRangeEnd => "Invalid end port",
            ParseError::StartNotLessThanEnd => "Start port must be less than end port",
        }
    }
}

/// The text that `message` returns for each error.
pub open spec fn spec_message(e: ParseError) -> Seq<char> {
    match e {
        ParseError::InvalidPort => "Invalid port"@,
        ParseError::InvalidRangeStart => "Invalid start port"@,
        ParseError::InvalidRangeEnd => "Invalid end port"@,
        ParseError::StartNotLessThanEnd => "Start port must be less than end port"@,
    }
}

/// The decimal digit character for `d`, defined for `0 <= d < 10`.
pub open spec fn digit_char(d: int) -> char {
    if d == 0 {
        '0'
    } else if d == 1 {
        '1'
    } else if d == 2 {
        '2'
    } else if d == 3 {
        '3'
    } else if d == 4 {
        '4'
    } else if d == 5 {
        '5'
    } else if d == 6 {
        '6'
    } else if d == 7 {
        '7'
    } else if d == 8 {
        '8'
    } else {
        '9'
    }
}

/// The canonical decimal rendering of `n`: no sign, no leading zero except
/// for `n == 0` itself.
pub open spec fn dec_str(n: nat) -> Seq<char>
    decreases n,
{
    if n < 10 {
        seq![digit_char(n as int)]
    } else {
        dec_str(n / 10) + seq![digit_char((n % 10) as int)]
    }
}

/// The canonical text of a spec: `"p"` for a single port, `"s-e"` for a range.
pub open spec fn spec_display(v: PortSpec) -> Seq<char> {
    match v {
        PortSpec::Single(p) => dec_str(p as nat),
        PortSpec::Range { start, end } => dec_str(start as nat) + seq!['-'] + dec_str(end as nat),
    }
}

fn digit_str(d: u16) -> (r: &'static str)
    requires
        d < 10,
    ensures
        r@ == seq![digit_char(d as int)],
{
    proof {
        reveal_strlit("0");
        reveal_strlit("1");
        reveal_strlit("2");
        reveal_strlit("3");
        reveal_strlit("4");
        reveal_strlit("5");
        reveal_strlit("6");
        reveal_strlit("7");
        reveal_strlit("8");
        reveal_strlit("9");
    }
    match d {
        0 => "0",
        1 => "1",
        2 => "2",
        3 => "3",
        4 => "4",
        5 => "5",
        6 => "6",
        7 => "7",
        8 => "8",
        _ => "9",
    }
}

fn push_dec(s: &mut String, n: u16)
    ensures
        final(s)@ == old(s)@ + dec_str(n as nat),
    decreases n,
{
    if n < 10 {
        s.append(digit_str(n));
    } else {
        let q = n / 10;
        assert(q < n) by {
            assert(n / 10 < n) by (nonlinear_arith)
                requires
                    n >= 10,
            ;
        }
        push_dec(s, q);
        s.append(digit_str(n % 10));
    }
}

/// The whitespace characters that `parse` tolerates around a number.
pub open spec fn is_ws(c: char) -> bool {
    c == ' ' || c == '\t' || c == '\n' || c == '\r'
}

/// A decimal digit character.
pub open spec fn is_digit(c: char) -> bool {
    '0' <= c && c <= '9'
}

/// The numeric value of a digit character.
pub open spec fn digit_val(c: char) -> int {
    c as u32 - '0' as u32
}

/// The number written by a digit sequence, most significant digit first.
pub open spec fn digits_val(s: Seq<char>) -> int
    decreases s.len(),
{
    if s.len() == 0 {
        0
    } else {
        digits_val(s.drop_last()) * 10 + digit_val(s.last())
    }
}

/// Every character of `s` is a decimal digit.
pub open spec fn all_digits(s: Seq<char>) -> bool {
    forall|i: int| 0 <= i < s.len() ==> is_digit(#[trigger] s[i])
}

/// `s` without its leading whitespace.
pub open spec fn trim_start(s: Seq<char>) -> Seq<char>
    decreases s.len(),
{
    if s.len() > 0 && is_ws(s[0]) {
        trim_start(s.drop_first())
    } else {
        s
    }
}

/// `s` without its trailing whitespace.
pub open spec fn trim_end(s: Seq<char>) -> Seq<char>
    decreases s.len(),
{
    if s.len() > 0 && is_ws(s.last()) {
        trim_end(s.drop_last())
    } else {
        s
    }
}

/// `s` without surrounding whitespace.
pub open spec fn trim(s: Seq<char>) -> Seq<char> {
    trim_end(trim_start(s))
}

/// What trimming `t` and reading it as an unsigned 16-bit decimal number
/// yields: `None` on an empty or non-numeric or too-large number.
pub open spec fn spec_parse_u16(t: Seq<char>) -> Option<u16> {
    let u = trim(t);
    if u.len() > 0 && all_digits(u) && digits_val(u) <= 65535 {
        Some(digits_val(u) as u16)
    } else {
        None
    }
}

/// The index of the first `'-'` in `s`, if any.
pub open spec fn first_dash(s: Seq<char>) -> Option<int>
    decreases s.len(),
{
    if s.len() == 0 {
        None
    } else if s[0] == '-' {
        Some(0)
    } else {
        match first_dash(s.drop_first()) {
            Some(i) => Some(i + 1),
            None => None,
        }
    }
}

/// What `PortSpec::parse` returns on the text `s`: split on the first dash
/// if there is one and read a range, else read a single port.
pub open spec fn spec_parse(s: Seq<char>) -> Result<PortSpec, ParseError> {
    match first_dash(s) {
        Some(k) => match spec_parse_u16(s.subrange(0, k)) {
            None => Err(ParseError::InvalidRangeStart),
            Some(st) => match spec_parse_u16(s.subrange(k + 1, s.len() as int)) {
                None => Err(ParseError::InvalidRangeEnd),
                Some(en) => if st >= en {
                    Err(ParseError::StartNotLessThanEnd)
                } else {
                    Ok(PortSpec::Range { start: st, end: en })
                },
            },
        },
        None => match spec_parse_u16(s) {
            None => Err(ParseError::InvalidPort),
            Some(p) => Ok(PortSpec::Single(p)),
        },
    }
}

/// `first_dash` finds a dash preceded by none, and `None` means no dash at all.
pub proof fn lemma_first_dash_characterization(s: Seq<char>)
    ensures
        match first_dash(s) {
            Some(k) => 0 <= k < s.len() && s[k] == '-' && (forall|j: int|
                0 <= j < k ==> s[j] != '-'),
            None => forall|j: int| 0 <= j < s.len() ==> s[j] != '-',
        },
    decreases s.len(),
{
    if s.len() == 0 {
    } else if s[0] == '-' {
    } else {
        lemma_first_dash_characterization(s.drop_first());
        assert(forall|j: int|
            0 <= j < s.drop_first().len() ==> #[trigger] s.drop_first()[j] == s[j + 1]);
        match first_dash(s.drop_first()) {
            Some(i) => {
                assert forall|j: int| 0 <= j < i + 1 implies s[j] != '-' by {
                    if j > 0 {
                        assert(s.drop_first()[j - 1] == s[j]);
                    }
                }
            },
            None => {
                assert forall|j: int| 0 <= j < s.len() implies s[j] != '-' by {
                    if j > 0 {
                        assert(s.drop_first()[j - 1] == s[j]);
                    }
                }
            },
        }
    }
}

fn is_ws_char(c: char) -> (r: bool)
    ensures
        r == is_ws(c),
{
    c == ' ' || c == '\t' || c == '\n' || c == '\r'
}

fn find_first_dash(input: &str, n: usize) -> (r: Option<usize>)
    requires
        n == input@.len(),
    ensures
        match r {
            Some(k) => k < input@.len() && input@[k as int] == '-' && (forall|j: int|
                0 <= j < k ==> input@[j] != '-'),
            None => forall|j: int| 0 <= j < input@.len() ==> input@[j] != '-',
        },
{
    let mut i: usize = 0;
    while i < n
        invariant
            n == input@.len(),
            i <= n,
            forall|j: int| 0 <= j < i ==> input@[j] != '-',
        decreases n - i,
    {
        if input.get_char(i) == '-' {
            return Some(i);
        }
        i += 1;
    }
    None
}

/// Reads the characters of `input` between `from` and `to` as a port number,
/// exactly as `spec_parse_u16` describes.
fn parse_part(input: &str, from: usize, to: usize) -> (r: Option<u16>)
    requires
        from <= to <= input@.len(),
    ensures
        r == spec_parse_u16(input@.subrange(from as int, to as int)),
{
    let ghost t = input@.subrange(from as int, to as int);
    let mut lo = from;
    while lo < to && is_ws_char(input.get_char(lo))
        invariant
            from <= lo <= to <= input@.len(),
            t == input@.subrange(from as int, to as int),
            trim_start(t) == trim_start(input@.subrange(lo as int, to as int)),
        decreases to - lo,
    {
        proof {
            let cur = input@.subrange(lo as int, to as int);
            assert(cur[0] == input@[lo as int]);
            assert(cur.drop_first() =~= input@.subrange(lo as int + 1, to as int));
        }
        lo += 1;
    }
    proof {
        let cur = input@.subrange(lo as int, to as int);
        if lo < to {
            assert(cur[0] == input@[lo as int]);
        }
        assert(trim_start(t) == cur);
    }
    let mut hi = to;
    while hi > lo && is_ws_char(input.get_char(hi - 1))
        invariant
            from <= lo <= hi <= to <= input@.len(),
            trim_start(t) == input@.subrange(lo as int, to as int),
            trim_end(input@.subrange(lo as int, to as int)) == trim_end(
                input@.subrange(lo as int, hi as int),
            ),
        decreases hi - lo,
    {
        proof {
            let cur = input@.subrange(lo as int, hi as int);
            assert(cur.last() == input@[hi - 1]);
            assert(cur.drop_last() =~= input@.subrange(lo as int, hi as int - 1));
        }
        hi -= 1;
    }
    let ghost u = input@.subrange(lo as int, hi as int);
    proof {
        if hi > lo {
            assert(u.last() == input@[hi - 1]);
        }
        assert(trim_end(u) == u);
        assert(trim(t) == u);
    }
    if lo == hi {
        return None;
    }
    let mut value: u32 = 0;
    let mut too_big = false;
    let mut i = lo;
    while i < hi
        invariant
            from <= lo <= i <= hi <= to <= input@.len(),
            lo < hi,
            t == input@.subrange(from as int, to as int),
            u == input@.subrange(lo as int, hi as int),
            trim(t) == u,
            forall|j: int| lo <= j < i ==> is_digit(#[trigger] input@[j]),
            !too_big ==> value == digits_val(input@.subrange(lo as int, i as int)) && value
                <= 65535,
            too_big ==> digits_val(input@.subrange(lo as int, i as int)) > 65535,
        decreases hi - i,
    {
        let c = input.get_char(i);
        if !('0' <= c && c <= '9') {
            proof {
                assert(u[i - lo] == input@[i as int]);
                assert(!all_digits(u));
            }
            return None;
        }
        let d = (c as u32) - ('0' as u32);
        proof {
            let prev = input@.subrange(lo as int, i as int);
            let next = input@.subrange(lo as int, i as int + 1);
            assert(next.drop_last() =~= prev);
            assert(next.last() == input@[i as int]);
            assert(digits_val(next) == digits_val(prev) * 10 + digit_val(input@[i as int]));
        }
        if too_big {
        } else {
            let nv = value * 10 + d;
            if nv > 65535 {
                too_big = true;
            } else {
                value = nv;
            }
        }
        i += 1;
    }
    proof {
        assert forall|j: int| 0 <= j < u.len() implies is_digit(#[trigger] u[j]) by {
            assert(u[j] == input@[lo + j]);
        }
    }
    if too_big {
        return None;
    }
    proof {
        assert(digits_val(u) == value);
    }
    Some(value as u16)
}

impl PortSpec {
    /// Parses the text form: a single number, or `start-end` split on the
    /// first dash, with whitespace around each number allowed.
    pub fn parse(input: &str) -> (r: Result<PortSpec, ParseError>)
        ensures
            r == spec_parse(input@),
    {
        let n = input.unicode_len();
        let dash = find_first_dash(input, n);
        proof {
            lemma_first_dash_characterization(input@);
        }
        match dash {
            Some(k) => {
                proof {
                    match first_dash(input@) {
                        Some(k2) => {
                            assert(!(k2 < k) && !((k as int) < k2));
                        },
                        None => {
                            assert(input@[k as int] == '-');
                        },
                    }
                }
                match parse_part(input, 0, k) {
                    None => Err(ParseError::InvalidRangeStart),
                    Some(st) => match parse_part(input, k + 1, n) {
                        None => Err(ParseError::InvalidRangeEnd),
                        Some(en) => if st >= en {
                            Err(ParseError::StartNotLessThanEnd)
                        } else {
                            Ok(PortSpec::Range { start: st, end: en })
                        },
                    },
                }
            },
            None => {
                proof {
                    match first_dash(input@) {
                        Some(k2) => {
                            assert(input@[k2] == '-');
                        },
                        None => {},
                    }
                    assert(input@.subrange(0, input@.len() as int) =~= input@);
                }
                match parse_part(input, 0, n) {
                    None => Err(ParseError::InvalidPort),
                    Some(p) => Ok(PortSpec::Single(p)),
                }
            },
        }
    }

    /// Renders the spec in its canonical text form.
    pub fn display(&self) -> (r: String)
        ensures
            r@ == spec_display(*self),
    {
        match self {
            PortSpec::Single(p) => {
                let mut s = String::new();
                push_dec(&mut s, *p);
                s
            },
            PortSpec::Range { start, end } => {
                let mut s = String::new();
                push_dec(&mut s, *start);
                proof {
                    reveal_strlit("-");
                }
                s.append("-");
                push_dec(&mut s, *end);
                s
            },
        }
    }
}

/// `s` with every whitespace character removed, wherever it stands.
pub open spec fn strip_ws(s: Seq<char>) -> Seq<char>
    decreases s.len(),
{
    if s.len() == 0 {
        Seq::empty()
    } else if is_ws(s[0]) {
        strip_ws(s.drop_first())
    } else {
        seq![s[0]] + strip_ws(s.drop_first())
    }
}

/// A number text is canonical when its trimmed digits carry no redundant
/// leading zero; `"0"` itself is canonical.
pub open spec fn canonical_number(t: Seq<char>) -> bool {
    trim(t).len() <= 1 || trim(t)[0] != '0'
}

/// Every number of the text is written canonically.
pub open spec fn canonical_text(s: Seq<char>) -> bool {
    match first_dash(s) {
        Some(k) => canonical_number(s.subrange(0, k)) && canonical_number(
            s.subrange(k + 1, s.len() as int),
        ),
        None => canonical_number(s),
    }
}

proof fn lemma_digit_char_of_val(c: char)
    requires
        is_digit(c),
    ensures
        digit_char(digit_val(c)) == c,
{
}

/// The value of a digit string is nonnegative, and positive unless it is all
/// zeros from the first digit on.
proof fn lemma_digits_val_bounds(s: Seq<char>)
    requires
        all_digits(s),
    ensures
        digits_val(s) >= 0,
        s.len() >= 1 && s[0] != '0' ==> digits_val(s) >= 1,
    decreases s.len(),
{
    if s.len() > 0 {
        let front = s.drop_last();
        assert(forall|i: int| 0 <= i < front.len() ==> front[i] == s[i]);
        lemma_digits_val_bounds(front);
        assert(is_digit(s.last()));
        if s.len() >= 1 && s[0] != '0' {
            if s.len() == 1 {
                assert(digit_val(s[0]) >= 1);
            } else {
                assert(front[0] == s[0]);
                assert(digits_val(front) >= 1);
            }
        }
    }
}

/// Rendering a number yields digits whose value is the number back, with no
/// leading zero unless the number is zero.
proof fn lemma_dec_str_val(n: nat)
    ensures
        all_digits(dec_str(n)),
        dec_str(n).len() >= 1,
        digits_val(dec_str(n)) == n,
        n >= 1 ==> dec_str(n)[0] != '0',
    decreases n,
{
    if n < 10 {
        let s = dec_str(n);
        assert(s == seq![digit_char(n as int)]);
        assert(s.drop_last() =~= Seq::<char>::empty());
        assert(digits_val(Seq::<char>::empty()) == 0);
        assert(s.last() == digit_char(n as int));
        assert(digit_val(digit_char(n as int)) == n);
        assert(digits_val(s) == n);
    } else {
        lemma_dec_str_val(n / 10);
        let a = dec_str(n / 10);
        let x = digit_char((n % 10) as int);
        let s = a + seq![x];
        assert((a + seq![x]).drop_last() =~= a);
        assert(s.last() == x);
        assert(digits_val(s) == digits_val(a) * 10 + digit_val(x));
        assert(n / 10 >= 1);
        assert(s[0] == a[0]);
        assert(forall|i: int| 0 <= i < a.len() ==> s[i] == a[i]);
        assert(digit_val(x) == n % 10);
    }
}

/// A canonical digit string renders back to itself.
proof fn lemma_dec_str_of_digits(t: Seq<char>)
    requires
        all_digits(t),
        t.len() >= 1,
        t.len() == 1 || t[0] != '0',
    ensures
        digits_val(t) >= 0,
        dec_str(digits_val(t) as nat) == t,
    decreases t.len(),
{
    lemma_digits_val_bounds(t);
    if t.len() == 1 {
        assert(t.drop_last() =~= Seq::<char>::empty());
        assert(digits_val(Seq::<char>::empty()) == 0);
        assert(t.last() == t[0]);
        assert(digits_val(t) == digit_val(t[0]));
        lemma_digit_char_of_val(t[0]);
        assert(dec_str(digits_val(t) as nat) =~= t);
    } else {
        let front = t.drop_last();
        assert(forall|i: int| 0 <= i < front.len() ==> front[i] == t[i]);
        lemma_dec_str_of_digits(front);
        lemma_digits_val_bounds(front);
        let d = digit_val(t.last());
        let v = digits_val(t);
        assert(v == digits_val(front) * 10 + d);
        assert(digits_val(front) >= 1);
        assert(digits_val(front) * 10 >= 10);
        assert(v >= 10);
        assert(v / 10 == digits_val(front) && v % 10 == d) by (nonlinear_arith)
            requires
                v == digits_val(front) * 10 + d,
                0 <= d < 10,
        ;
        lemma_digit_char_of_val(t.last());
        assert(dec_str(v as nat) == dec_str(digits_val(front) as nat) + seq![t.last()]);
        assert(dec_str(v as nat) =~= t);
    }
}

proof fn lemma_strip_ws_add(a: Seq<char>, b: Seq<char>)
    ensures
        strip_ws(a + b) == strip_ws(a) + strip_ws(b),
    decreases a.len(),
{
    if a.len() == 0 {
        assert(a + b =~= b);
        assert(strip_ws(a) + strip_ws(b) =~= strip_ws(b));
    } else {
        assert((a + b).drop_first() =~= a.drop_first() + b);
        assert((a + b)[0] == a[0]);
        lemma_strip_ws_add(a.drop_first(), b);
        if !is_ws(a[0]) {
            assert(seq![a[0]] + (strip_ws(a.drop_first()) + strip_ws(b)) =~= (seq![a[0]]
                + strip_ws(a.drop_first())) + strip_ws(b));
        }
    }
}

proof fn lemma_strip_ws_no_ws(s: Seq<char>)
    requires
        forall|i: int| 0 <= i < s.len() ==> !is_ws(#[trigger] s[i]),
    ensures
        strip_ws(s) == s,
    decreases s.len(),
{
    if s.len() > 0 {
        assert(forall|i: int| 0 <= i < s.drop_first().len() ==> s.drop_first()[i] == s[i + 1]);
        lemma_strip_ws_no_ws(s.drop_first());
        assert(seq![s[0]] + s.drop_first() =~= s);
    }
}

proof fn lemma_strip_ws_trim_start(s: Seq<char>)
    ensures
        strip_ws(trim_start(s)) == strip_ws(s),
    decreases s.len(),
{
    if s.len() > 0 && is_ws(s[0]) {
        lemma_strip_ws_trim_start(s.drop_first());
    }
}

proof fn lemma_strip_ws_trim_end(s: Seq<char>)
    ensures
        strip_ws(trim_end(s)) == strip_ws(s),
    decreases s.len(),
{
    if s.len() > 0 && is_ws(s.last()) {
        lemma_strip_ws_trim_end(s.drop_last());
        assert(s =~= s.drop_last() + seq![s.last()]);
        lemma_strip_ws_add(s.drop_last(), seq![s.last()]);
        assert(seq![s.last()].drop_first() =~= Seq::<char>::empty());
        assert(strip_ws(Seq::<char>::empty()) =~= Seq::<char>::empty());
        assert(strip_ws(seq![s.last()]) =~= Seq::<char>::empty());
        assert(strip_ws(s.drop_last()) + Seq::<char>::empty() =~= strip_ws(s.drop_last()));
    }
}

/// Stripping all whitespace and trimming the ends agree once the trimmed
/// middle has no whitespace of its own.
proof fn lemma_strip_ws_trim(s: Seq<char>)
    ensures
        strip_ws(trim(s)) == strip_ws(s),
{
    lemma_strip_ws_trim_start(s);
    lemma_strip_ws_trim_end(trim_start(s));
}

/// A successfully parsed, canonically written number renders back to the
/// text with its whitespace stripped.
proof fn lemma_number_round_trip(t: Seq<char>, v: u16)
    requires
        spec_parse_u16(t) == Some(v),
        canonical_number(t),
    ensures
        dec_str(v as nat) == strip_ws(t),
{
    let u = trim(t);
    lemma_digits_val_bounds(u);
    lemma_dec_str_of_digits(u);
    lemma_strip_ws_trim(t);
    lemma_strip_ws_no_ws(u);
}

/// The round-trip law, text first: whenever `parse` accepts a text whose
/// numbers are canonically written (no redundant leading zeros), `display`
/// of the result is exactly that text with its whitespace stripped.
///
/// A text with a redundant leading zero, such as `"007"`, parses but renders
/// back without the zeros; such texts are excluded by `canonical_text`.
pub proof fn lemma_parse_display_round_trip(s: Seq<char>, v: PortSpec)
    requires
        spec_parse(s) == Ok::<PortSpec, ParseError>(v),
        canonical_text(s),
    ensures
        spec_display(v) == strip_ws(s),
{
    lemma_first_dash_characterization(s);
    match first_dash(s) {
        None => {
            match spec_parse_u16(s) {
                Some(p) => {
                    assert(v == PortSpec::Single(p));
                    lemma_number_round_trip(s, p);
                },
                None => {
                    assert(false);
                },
            }
        },
        Some(k) => {
            let a = s.subrange(0, k);
            let b = s.subrange(k + 1, s.len() as int);
            match spec_parse_u16(a) {
                Some(st) => {
                    match spec_parse_u16(b) {
                        Some(en) => {
                            assert(v == PortSpec::Range { start: st, end: en });
                            lemma_number_round_trip(a, st);
                            lemma_number_round_trip(b, en);
                            assert(s =~= a + (seq!['-'] + b));
                            lemma_strip_ws_add(a, seq!['-'] + b);
                            lemma_strip_ws_add(seq!['-'], b);
                            assert((seq!['-'] + b).drop_first() =~= b);
                            assert(strip_ws(seq!['-']) =~= seq!['-'] + Seq::<char>::empty());
                            assert(strip_ws(s) =~= strip_ws(a) + ((seq!['-']
                                + Seq::<char>::empty()) + strip_ws(b)));
                            assert(spec_display(v) =~= strip_ws(a) + ((seq!['-']
                                + Seq::<char>::empty()) + strip_ws(b)));
                        },
                        None => {
                            assert(false);
                        },
                    }
                },
                None => {
                    assert(false);
                },
            }
        },
    }
}

/// The round-trip law, value first: `parse` applied to `display` of any
/// well-formed spec (a range has `start < end`) gives the spec back.
pub proof fn lemma_display_parse_round_trip(v: PortSpec)
    requires
        v matches PortSpec::Range { start, end } ==> start < end,
    ensures
        spec_parse(spec_display(v)) == Ok::<PortSpec, ParseError>(v),
{
    let s = spec_display(v);
    lemma_first_dash_characterization(s);
    match v {
        PortSpec::Single(p) => {
            lemma_dec_str_val(p as nat);
            match first_dash(s) {
                Some(k) => {
                    assert(is_digit(s[k]));
                    assert(false);
                },
                None => {},
            }
            assert(trim_start(s) == s);
            assert(trim_end(s) == s);
            assert(spec_parse_u16(s) == Some(p));
        },
        PortSpec::Range { start, end } => {
            lemma_dec_str_val(start as nat);
            lemma_dec_str_val(end as nat);
            let a = dec_str(start as nat);
            let b = dec_str(end as nat);
            let k = a.len() as int;
            assert(s == a + seq!['-'] + b);
            assert(s[k] == '-');
            assert(forall|j: int| 0 <= j < k ==> s[j] == a[j] && is_digit(a[j]));
            match first_dash(s) {
                Some(k2) => {
                    if k2 < k {
                        assert(is_digit(s[k2]));
                        assert(false);
                    }
                    if k < k2 {
                        assert(false);
                    }
                },
                None => {
                    assert(false);
                },
            }
            let sa = s.subrange(0, k);
            let sb = s.subrange(k + 1, s.len() as int);
            assert(sa =~= a);
            assert(sb =~= b);
            assert(trim_start(a) == a && trim_end(a) == a);
            assert(trim_start(b) == b && trim_end(b) == b);
            assert(spec_parse_u16(sa) == Some(start));
            assert(spec_parse_u16(sb) == Some(end));
        },
    }
}

} // verus!
