//! Lyrics: splitting raw text into lines, and reading `[MM:SS.CC]` time stamps.
use vstd::prelude::*;
use crate::text::{
    all_digits, digit_char, digits_value, digit_value, decimal, index_of, is_digit, lemma_index_of,
    parse_digits, strings_view, trim_str, trimmed, u64_to_string,
};

verus! {

/// A character that ends a line.
pub open spec fn is_line_break(c: char) -> bool {
    c == '\r' || c == '\n'
}

/// The position of the first line break in `s`, or `s.len()` when there is none.
pub open spec fn first_break(s: Seq<char>) -> nat
    decreases s.len(),
{
    if s.len() == 0 {
        0
    } else if is_line_break(s[0]) {
        0
    } else {
        1 + first_break(s.drop_first())
    }
}

/// How many characters the line break at `i` spans: `\r\n` is one break of two.
pub open spec fn break_width(s: Seq<char>, i: int) -> int {
    if s[i] == '\r' && i + 1 < s.len() && s[i + 1] == '\n' {
        2
    } else {
        1
    }
}

/// The trimmed lines of `s`. A break ends a line; text after the last break is a line
/// of its own only when there is any.
pub open spec fn lyric_lines(s: Seq<char>) -> Seq<Seq<char>>
    decreases s.len(),
{
    if s.len() == 0 {
        Seq::empty()
    } else {
        let k = first_break(s) as int;
        if k >= s.len() {
            seq![trimmed(s)]
        } else {
            seq![trimmed(s.subrange(0, k))] + lyric_lines(s.subrange(k + break_width(s, k), s.len() as int))
        }
    }
}

/// The minutes field: one or two digits, the first of them possibly replaced by `+`.
pub open spec fn minutes_value(f: Seq<char>) -> Option<nat> {
    if f.len() == 2 && f[0] == '+' && is_digit(f[1]) {
        Some(digit_value(f[1]))
    } else if f.len() == 2 && all_digits(f) {
        Some(digits_value(f))
    } else {
        None
    }
}

/// The first two digits after the decimal point, as hundredths.
pub open spec fn hundredths_of(b: Seq<char>) -> nat {
    (if b.len() >= 1 { 10 * digit_value(b[0]) } else { 0 }) + (if b.len() >= 2 {
        digit_value(b[1])
    } else {
        0
    })
}

/// A decimal number without sign, in hundredths rounded toward zero: digits, at most one
/// `.`, at least one digit in all.
pub open spec fn unsigned_centis(u: Seq<char>) -> Option<nat> {
    let k = index_of(u, '.') as int;
    let a = u.subrange(0, k);
    let b = if k < u.len() { u.subrange(k + 1, u.len() as int) } else { Seq::empty() };
    if all_digits(a) && all_digits(b) && a.len() + b.len() > 0 {
        Some(digits_value(a) * 100 + hundredths_of(b))
    } else {
        None
    }
}

/// The seconds field in hundredths: a decimal number with an optional sign; a negative
/// number counts as zero.
pub open spec fn seconds_centis(f: Seq<char>) -> Option<nat> {
    if f.len() > 0 && f[0] == '+' {
        unsigned_centis(f.drop_first())
    } else if f.len() > 0 && f[0] == '-' {
        match unsigned_centis(f.drop_first()) {
            Some(_) => Some(0nat),
            None => None,
        }
    } else {
        unsigned_centis(f)
    }
}

/// Minutes and hundredths of a second as (minute, second, hundredths), seconds wrapping at 60.
pub open spec fn duration_parts(min: nat, centis: nat) -> (nat, nat, nat) {
    (min, (centis / 100) % 60, centis % 100)
}

/// The time stamp that opens `line`, if it has one: `[` at 0, `]` at 9, a single-byte
/// separator at 3, minutes at 1..3 and seconds at 4..9.
pub open spec fn timestamp_of(line: Seq<char>) -> Option<(nat, nat, nat)> {
    if line.len() >= 10 && line[0] == '[' && line[9] == ']' && (line[3] as u32) < 128 {
        match (minutes_value(line.subrange(1, 3)), seconds_centis(line.subrange(4, 9))) {
            (Some(m), Some(c)) => Some(duration_parts(m, c)),
            _ => None,
        }
    } else {
        None
    }
}

/// The text of `line` after its time stamp, or the whole line when it has none.
pub open spec fn text_after_timestamp(line: Seq<char>) -> Seq<char> {
    if timestamp_of(line) is Some {
        line.subrange(10, line.len() as int)
    } else {
        line
    }
}

/// A number written with at least two digits, padded with a leading zero.
pub open spec fn two_digits(n: nat) -> Seq<char> {
    if n < 10 {
        seq!['0'] + decimal(n)
    } else {
        decimal(n)
    }
}

/// `MM:SS.CC`.
pub open spec fn duration_text(m: nat, s: nat, c: nat) -> Seq<char> {
    two_digits(m) + seq![':'] + two_digits(s) + seq!['.'] + two_digits(c)
}

proof fn lemma_two_digits(n: nat)
    requires
        n < 100,
    ensures
        two_digits(n) == seq![digit_char(n / 10), digit_char(n % 10)],
        is_digit(digit_char(n / 10)) && digit_value(digit_char(n / 10)) == n / 10,
        is_digit(digit_char(n % 10)) && digit_value(digit_char(n % 10)) == n % 10,
{
    if n < 10 {
        assert(decimal(n) == seq![digit_char(n)]);
        assert(digit_char(0) == '0');
        assert(two_digits(n) =~= seq![digit_char(n / 10), digit_char(n % 10)]);
    } else {
        assert(decimal(n / 10) == seq![digit_char(n / 10)]);
        assert(two_digits(n) =~= seq![digit_char(n / 10), digit_char(n % 10)]);
    }
}

/// Writing a duration as `[MM:SS.CC]` in front of any text and reading the line back gives
/// the same minute, second and hundredths, and the same text.
pub proof fn lemma_timestamp_round_trip(m: nat, sec: nat, c: nat, rest: Seq<char>)
    requires
        m < 100,
        sec < 60,
        c < 100,
    ensures
        timestamp_of(seq!['['] + duration_text(m, sec, c) + seq![']'] + rest) == Some((m, sec, c)),
        text_after_timestamp(seq!['['] + duration_text(m, sec, c) + seq![']'] + rest) == rest,
{
    reveal_with_fuel(digits_value, 3);
    lemma_two_digits(m);
    lemma_two_digits(sec);
    lemma_two_digits(c);
    let line = seq!['['] + duration_text(m, sec, c) + seq![']'] + rest;
    let (m1, m0) = (digit_char(m / 10), digit_char(m % 10));
    let (s1, s0) = (digit_char(sec / 10), digit_char(sec % 10));
    let (c1, c0) = (digit_char(c / 10), digit_char(c % 10));
    assert(line =~= seq!['[', m1, m0, ':', s1, s0, '.', c1, c0, ']'] + rest);
    let mf = line.subrange(1, 3);
    assert(mf =~= seq![m1, m0]);
    assert(mf.drop_last() =~= seq![m1]);
    assert(mf.drop_last().drop_last() =~= Seq::<char>::empty());
    assert(all_digits(mf));
    assert(digits_value(mf.drop_last()) == digit_value(m1));
    assert(digits_value(mf) == m / 10 * 10 + m % 10);
    assert(minutes_value(mf) == Some(m));
    let f = line.subrange(4, 9);
    assert(f =~= seq![s1, s0, '.', c1, c0]);
    lemma_index_of(f, '.', 2);
    let a = f.subrange(0, 2);
    let b = f.subrange(3, 5);
    assert(a =~= seq![s1, s0]);
    assert(b =~= seq![c1, c0]);
    assert(a.drop_last() =~= seq![s1]);
    assert(a.drop_last().drop_last() =~= Seq::<char>::empty());
    assert(digits_value(a.drop_last()) == digit_value(s1));
    assert(digits_value(a) == sec / 10 * 10 + sec % 10);
    assert(hundredths_of(b) == c);
    assert(all_digits(a) && all_digits(b));
    assert(unsigned_centis(f) == Some(sec * 100 + c));
    assert(seconds_centis(f) == Some(sec * 100 + c));
    assert((sec * 100 + c) / 100 == sec && (sec * 100 + c) % 100 == c) by (nonlinear_arith)
        requires
            sec < 60,
            c < 100,
    ;
    assert(line.subrange(10, line.len() as int) =~= rest);
}

/// A point in time within a song, to the hundredth of a second.
#[derive(Debug, Default, Clone, Copy, PartialEq, Eq)]
pub struct LyricsDuration {
    min: u64,
    secs: u64,
    milliseconds: u64,
}

impl LyricsDuration {
    /// Minute, second and hundredths.
    pub closed spec fn view(&self) -> (nat, nat, nat) {
        (self.min as nat, self.secs as nat, self.milliseconds as nat)
    }

    pub fn minute(&self) -> (r: u64)
        ensures
            r as nat == self.view().0,
    {
        self.min
    }

    pub fn seconds(&self) -> (r: u64)
        ensures
            r as nat == self.view().1,
    {
        self.secs
    }

    /// The hundredths of a second.
    pub fn milliseconds(&self) -> (r: u64)
        ensures
            r as nat == self.view().2,
    {
        self.milliseconds
    }

    /// Written as `MM:SS.CC`, each part padded to two digits.
    pub fn to_string(&self) -> (r: String)
        ensures
            r@ == duration_text(self.view().0, self.view().1, self.view().2),
    {
        let mut out = pad_two(self.min);
        crate::text::push_char(&mut out, ':');
        let s = pad_two(self.secs);
        out.append(s.as_str());
        crate::text::push_char(&mut out, '.');
        let c = pad_two(self.milliseconds);
        out.append(c.as_str());
        proof {
            assert(seq![':'] == Seq::<char>::empty().push(':'));
        }
        assert(out@ =~= duration_text(self.view().0, self.view().1, self.view().2));
        out
    }
}

fn pad_two(n: u64) -> (r: String)
    ensures
        r@ == two_digits(n as nat),
{
    let d = u64_to_string(n);
    if n < 10 {
        let mut out = String::new();
        crate::text::push_char(&mut out, '0');
        out.append(d.as_str());
        assert(out@ =~= two_digits(n as nat));
        out
    } else {
        d
    }
}

/// The duration that an optional time stamp gives, as (minute, second, hundredths).
pub open spec fn duration_view(d: Option<LyricsDuration>) -> Option<(nat, nat, nat)> {
    match d {
        Some(x) => Some(x.view()),
        None => None,
    }
}

/// Reads the minutes field.
fn parse_minutes(f: &str) -> (r: Option<u64>)
    requires
        f@.len() == 2,
    ensures
        r is Some <==> minutes_value(f@) is Some,
        r matches Some(v) ==> minutes_value(f@) == Some(v as nat),
{
    let c0 = f.get_char(0);
    let c1 = f.get_char(1);
    if c0 == '+' {
        if '0' <= c1 && c1 <= '9' {
            return Some((c1 as u32 - '0' as u32) as u64);
        }
        assert(!all_digits(f@)) by {
            assert(!is_digit(f@[0]));
        }
        return None;
    }
    proof {
        let t = f@;
        assert(t.drop_last().drop_last().len() == 0);
        assert(t.drop_last().last() == t[0]);
        assert(t.last() == t[1]);
    }
    match parse_digits(f) {
        Some(v) => Some(v),
        None => None,
    }
}

/// Reads a decimal number without sign, in hundredths.
fn parse_unsigned_centis(u: &str) -> (r: Option<u64>)
    requires
        u@.len() <= 5,
    ensures
        r is Some <==> unsigned_centis(u@) is Some,
        r matches Some(v) ==> unsigned_centis(u@) == Some(v as nat),
{
    let n = u.unicode_len();
    let mut k: usize = 0;
    while k < n && u.get_char(k) != '.'
        invariant
            n == u@.len(),
            k <= n,
            forall|j: int| 0 <= j < k ==> u@[j] != '.',
        decreases n - k,
    {
        k = k + 1;
    }
    proof {
        lemma_index_of(u@, '.', k as int);
    }
    let a = u.substring_char(0, k);
    let b = if k < n {
        u.substring_char(k + 1, n)
    } else {
        u.substring_char(n, n)
    };
    assert(b@ == (if k < n { u@.subrange(k + 1, n as int) } else { Seq::empty() }));
    let ia = parse_digits(a);
    let fb = parse_digits(b);
    match (ia, fb) {
        (Some(x), Some(_)) => {
            let bn = b.unicode_len();
            if a.unicode_len() + bn == 0 {
                return None;
            }
            let mut h: u64 = 0;
            if bn >= 1 {
                h = 10 * (b.get_char(0) as u32 - '0' as u32) as u64;
                assert(is_digit(b@[0]));
            }
            if bn >= 2 {
                h = h + (b.get_char(1) as u32 - '0' as u32) as u64;
                assert(is_digit(b@[1]));
            }
            proof {
                crate::text::lemma_digits_value_bound(a@);
                reveal_with_fuel(crate::text::pow10, 6);
            }
            Some(x * 100 + h)
        },
        _ => None,
    }
}

/// Reads the seconds field, in hundredths.
fn parse_seconds_centis(f: &str) -> (r: Option<u64>)
    requires
        f@.len() == 5,
    ensures
        r is Some <==> seconds_centis(f@) is Some,
        r matches Some(v) ==> seconds_centis(f@) == Some(v as nat),
{
    let c = f.get_char(0);
    if c == '+' {
        parse_unsigned_centis(f.substring_char(1, 5))
    } else if c == '-' {
        match parse_unsigned_centis(f.substring_char(1, 5)) {
            Some(_) => Some(0),
            None => None,
        }
    } else {
        parse_unsigned_centis(f)
    }
}

/// Reads the time stamp that opens a line, and returns it with the rest of the line; a line
/// without a well-formed time stamp comes back whole, with none.
pub fn get_duration(line: &str) -> (r: (Option<LyricsDuration>, &str))
    ensures
        duration_view(r.0) == timestamp_of(line@),
        r.1@ == text_after_timestamp(line@),
{
    let n = line.unicode_len();
    if n < 10 || line.get_char(0) != '[' || line.get_char(9) != ']' || line.get_char(3) as u32 >= 128 {
        return (None, line);
    }
    let time = line.substring_char(1, 9);
    assert(time@.subrange(0, 2) == line@.subrange(1, 3));
    assert(time@.subrange(3, 8) == line@.subrange(4, 9));
    match parse_time(time) {
        Some(d) => (Some(d), line.substring_char(10, n)),
        None => (None, line),
    }
}

/// Reads `MM?SS.CC`: minutes at 0..2, seconds at 3..8.
fn parse_time(time: &str) -> (r: Option<LyricsDuration>)
    requires
        time@.len() == 8,
    ensures
        duration_view(r) == (match (minutes_value(time@.subrange(0, 2)), seconds_centis(time@.subrange(3, 8))) {
            (Some(m), Some(c)) => Some(duration_parts(m, c)),
            _ => None,
        }),
{
    let min = match parse_minutes(time.substring_char(0, 2)) {
        Some(m) => m,
        None => return None,
    };
    let centis = match parse_seconds_centis(time.substring_char(3, 8)) {
        Some(c) => c,
        None => return None,
    };
    Some(LyricsDuration { min, secs: centis / 100 % 60, milliseconds: centis % 100 })
}

proof fn lemma_first_break(s: Seq<char>, k: int)
    requires
        0 <= k <= s.len(),
        forall|j: int| 0 <= j < k ==> !is_line_break(#[trigger] s[j]),
        k == s.len() || is_line_break(s[k]),
    ensures
        first_break(s) == k,
    decreases k,
{
    if k > 0 {
        let t = s.drop_first();
        assert forall|j: int| 0 <= j < k - 1 implies !is_line_break(#[trigger] t[j]) by {
            assert(t[j] == s[j + 1]);
        }
        if k < s.len() {
            assert(t[k - 1] == s[k]);
        }
        assert(!is_line_break(s[0]));
        lemma_first_break(t, k - 1);
    }
}

/// Splits lyrics text into trimmed lines; `\n`, `\r` and `\r\n` each end one line.
pub fn split_lyrics(lyrics: &str) -> (r: Vec<String>)
    ensures
        strings_view(r@) == lyric_lines(lyrics@),
{
    let ghost s = lyrics@;
    let n = lyrics.unicode_len();
    let mut out: Vec<String> = Vec::new();
    let mut start: usize = 0;
    let mut i: usize = 0;
    assert(s.subrange(0, n as int) == s);
    assert(strings_view(out@) + lyric_lines(s) =~= lyric_lines(s));
    while i < n
        invariant
            n == s.len(),
            s == lyrics@,
            start <= i <= n,
            lyric_lines(s) == strings_view(out@) + lyric_lines(s.subrange(start as int, n as int)),
            forall|j: int| start <= j < i ==> !is_line_break(#[trigger] s[j]),
        decreases n - i,
    {
        let c = lyrics.get_char(i);
        if c == '\r' || c == '\n' {
            let line = trim_str(lyrics.substring_char(start, i));
            let ghost before = out@;
            out.push(String::from_str(line));
            let w: usize = if c == '\r' && i + 1 < n && lyrics.get_char(i + 1) == '\n' {
                2
            } else {
                1
            };
            proof {
                let t = s.subrange(start as int, n as int);
                let k = i - start;
                assert forall|j: int| 0 <= j < k implies !is_line_break(#[trigger] t[j]) by {
                    assert(t[j] == s[start + j]);
                }
                assert(t[k] == c);
                lemma_first_break(t, k);
                assert(break_width(t, k) == w);
                assert(t.subrange(0, k) == s.subrange(start as int, i as int));
                assert(t.subrange(k + w, t.len() as int) == s.subrange(i + w, n as int));
                assert(lyric_lines(t) == seq![trimmed(s.subrange(start as int, i as int))]
                    + lyric_lines(s.subrange(i + w, n as int)));
                assert(strings_view(out@) == strings_view(before).push(line@));
                assert(lyric_lines(s) =~= strings_view(out@) + lyric_lines(s.subrange(i + w, n as int)));
            }
            start = i + w;
            i = i + w;
        } else {
            i = i + 1;
        }
    }
    let ghost t = s.subrange(start as int, n as int);
    if start < n {
        let line = trim_str(lyrics.substring_char(start, n));
        let ghost before = out@;
        out.push(String::from_str(line));
        proof {
            assert forall|j: int| 0 <= j < t.len() implies !is_line_break(#[trigger] t[j]) by {
                assert(t[j] == s[start + j]);
            }
            lemma_first_break(t, t.len() as int);
            assert(strings_view(out@) =~= strings_view(before) + lyric_lines(t));
        }
    } else {
        assert(t.len() == 0);
        assert(strings_view(out@) + lyric_lines(t) =~= strings_view(out@));
    }
    out
}

/// Lyrics text as lines.
#[derive(Debug, Default)]
pub struct Lyrics {
    lines: Vec<String>,
}

impl Lyrics {
    /// The lines.
    pub closed spec fn view(&self) -> Seq<Seq<char>> {
        strings_view(self.lines@)
    }

    /// Splits raw lyrics text into lines.
    pub fn from(text: &str) -> (r: Lyrics)
        ensures
            r.view() == lyric_lines(text@),
    {
        Lyrics { lines: split_lyrics(text) }
    }

    pub fn lines(&self) -> (r: &Vec<String>)
        ensures
            strings_view(r@) == self.view(),
    {
        &self.lines
    }

    /// Each line with the time stamp it opens with, if any, and the text after it.
    pub fn lines_with_time(&self) -> (r: Vec<(Option<LyricsDuration>, &str)>)
        ensures
            r@.len() == self.view().len(),
            forall|i: int| 0 <= i < r@.len() ==> {
                &&& duration_view((#[trigger] r@[i]).0) == timestamp_of(self.view()[i])
                &&& r@[i].1@ == text_after_timestamp(self.view()[i])
            },
    {
        let mut out: Vec<(Option<LyricsDuration>, &str)> = Vec::new();
        let mut i: usize = 0;
        while i < self.lines.len()
            invariant
                i <= self.lines.len(),
                out@.len() == i,
                forall|j: int| 0 <= j < i ==> {
                    &&& duration_view((#[trigger] out@[j]).0) == timestamp_of(self.lines@[j]@)
                    &&& out@[j].1@ == text_after_timestamp(self.lines@[j]@)
                },
            decreases self.lines.len() - i,
        {
            out.push(get_duration(self.lines[i].as_str()));
            i = i + 1;
        }
        out
    }
}

/// Kinds of lyrics text.
pub enum LyricsType {
    Lrc,
    Rlrc,
}

/// Lyrics with per-word timing; no content is modelled yet.
pub struct RichLyrics {}

/// A pause between timed words.
pub struct WordSpace {}

/// One timed word.
pub struct Word {
    pub time: String,
    pub word: String,
}

/// Elements of rich lyrics.
pub enum LyricTag {
    Wait,
    P(),
    Lyricist(Vec<String>),
    Composer(Vec<String>),
}

/// One line of rich lyrics; no content is modelled yet.
pub struct RichLyricsLine {}

} // verus!
