//! The controller's tag-path grammar and the verified address parser.
//!
//! A tag path names one scalar slot on the controller: a symbolic head
//! such as `Speed` or `Program:Main.counter`, optional bracketed array
//! indices such as `profile[0,1,257]`, further `.member` accesses, and
//! optionally one final `.n` bit access with `n < 32`. The grammar is
//! stated by the spec functions below; `parse_tag` is proved to accept
//! exactly the strings the grammar admits and to return their segments.

use vstd::prelude::*;

use crate::errors::TagError;

verus! {

use vstd::string::StrSliceExecFns;

/// Longest symbolic name the controller accepts, prefix included.
pub const MAX_SYMBOL_CHARS: usize = 40;

/// Most digits an array index may have (`u32::MAX` has ten).
pub const MAX_INDEX_DIGITS: usize = 10;

/// One step of a parsed tag path.
#[derive(Clone, Debug, PartialEq)]
pub enum Segment {
    /// A symbolic name, for instance a tag or member name.
    Symbol(String),
    /// An array index or a bit number.
    Element(u32),
}

/// The mathematical form of a `Segment`.
pub enum SegView {
    Symbol(Seq<char>),
    Element(u32),
}

impl View for Segment {
    type V = SegView;

    open spec fn view(&self) -> SegView {
        match self {
            Segment::Symbol(s) => SegView::Symbol(s@),
            Segment::Element(n) => SegView::Element(*n),
        }
    }
}

/// The segment sequence a vector of segments stands for.
pub open spec fn segments_view(v: Seq<Segment>) -> Seq<SegView> {
    Seq::new(v.len(), |i: int| v[i]@)
}

/// A validated tag address: the parsed segments of a tag path.
/// Values are produced by `parse_tag`, never built directly, so every
/// `Address` satisfies the grammar.
#[derive(Clone, Debug)]
pub struct Address {
    segments: Vec<Segment>,
}

impl View for Address {
    type V = Seq<SegView>;

    closed spec fn view(&self) -> Seq<SegView> {
        segments_view(self.segments@)
    }
}

impl Address {
    /// The parsed segments, head first.
    pub fn segments(&self) -> (r: &Vec<Segment>)
        ensures
            segments_view(r@) == self@,
    {
        &self.segments
    }
}

/// Two addresses name the same slot exactly when their segments agree.
pub fn address_eq(x: &Address, y: &Address) -> (r: bool)
    ensures
        r == (x@ == y@),
{
    let xs = &x.segments;
    let ys = &y.segments;
    if xs.len() != ys.len() {
        proof {
            assert(x@.len() != y@.len());
        }
        return false;
    }
    let mut i: usize = 0;
    while i < xs.len()
        invariant
            i <= xs.len(),
            xs@.len() == ys@.len(),
            xs@ == x.segments@ && ys@ == y.segments@,
            forall|m: int| 0 <= m < i ==> xs@[m]@ == ys@[m]@,
        decreases xs@.len() - i,
    {
        let same = match (&xs[i], &ys[i]) {
            (Segment::Symbol(s1), Segment::Symbol(s2)) => *s1 == *s2,
            (Segment::Element(n1), Segment::Element(n2)) => *n1 == *n2,
            _ => false,
        };
        if !same {
            proof {
                assert(x@[i as int] != y@[i as int]);
            }
            return false;
        }
        i += 1;
    }
    proof {
        assert(x@ =~= y@);
    }
    true
}

// ---- characters of the grammar ----

/// Decimal digit, `'0'` through `'9'`.
pub open spec fn is_digit_char(c: char) -> bool {
    48 <= c as u32 && c as u32 <= 57
}

/// ASCII letter.
pub open spec fn is_alpha_char(c: char) -> bool {
    (97 <= c as u32 && c as u32 <= 122) || (65 <= c as u32 && c as u32 <= 90)
}

/// Character allowed inside a symbolic name.
pub open spec fn is_symbol_char(c: char) -> bool {
    c == '_' || is_digit_char(c) || is_alpha_char(c)
}

/// Character allowed to open a symbolic name.
pub open spec fn is_symbol_start_char(c: char) -> bool {
    c == '_' || is_alpha_char(c)
}

/// Numeric value of a digit character.
pub open spec fn digit_val(c: char) -> int {
    c as u32 - 48
}

// ---- runs and numbers ----

/// End of the maximal run of digits starting at `i`.
pub open spec fn digit_run_end(s: Seq<char>, i: int) -> int
    decreases s.len() - i,
{
    if i < s.len() && is_digit_char(s[i]) {
        digit_run_end(s, i + 1)
    } else {
        i
    }
}

/// End of the maximal run of symbol characters starting at `i`.
pub open spec fn symbol_run_end(s: Seq<char>, i: int) -> int
    decreases s.len() - i,
{
    if i < s.len() && is_symbol_char(s[i]) {
        symbol_run_end(s, i + 1)
    } else {
        i
    }
}

/// Value of the digit string `s[i..j]` read in base ten.
pub open spec fn digits_value(s: Seq<char>, i: int, j: int) -> int
    decreases j - i,
{
    if j <= i {
        0
    } else {
        digits_value(s, i, j - 1) * 10 + digit_val(s[j - 1])
    }
}

/// A well-formed number starts at `i`: at least one digit, at most ten,
/// and a value that fits a `u32`.
pub open spec fn valid_number_at(s: Seq<char>, i: int) -> bool {
    let j = digit_run_end(s, i);
    i < j && j - i <= MAX_INDEX_DIGITS && digits_value(s, i, j) <= u32::MAX
}

/// The value of the number starting at `i`.
pub open spec fn number_at(s: Seq<char>, i: int) -> u32 {
    digits_value(s, i, digit_run_end(s, i)) as u32
}

// ---- symbols ----

/// `program:` in any letter case stands at `i`. A head symbol carrying
/// this prefix names a program-scoped tag.
pub open spec fn program_prefix_at(s: Seq<char>, i: int) -> bool {
    &&& i + 8 <= s.len()
    &&& (s[i] == 'p' || s[i] == 'P')
    &&& (s[i + 1] == 'r' || s[i + 1] == 'R')
    &&& (s[i + 2] == 'o' || s[i + 2] == 'O')
    &&& (s[i + 3] == 'g' || s[i + 3] == 'G')
    &&& (s[i + 4] == 'r' || s[i + 4] == 'R')
    &&& (s[i + 5] == 'a' || s[i + 5] == 'A')
    &&& (s[i + 6] == 'm' || s[i + 6] == 'M')
    &&& (s[i + 7] == ':')
}

/// End of the symbol starting at `i`. Only the head symbol of a path may
/// carry the `program:` prefix; the prefix counts toward the length.
pub open spec fn symbol_end(s: Seq<char>, i: int, allow_prefix: bool) -> int {
    if allow_prefix && program_prefix_at(s, i) {
        symbol_run_end(s, i + 8)
    } else {
        symbol_run_end(s, i)
    }
}

/// A well-formed symbol starts at `i`: it opens with a letter or
/// underscore, a `program:` prefix is followed by at least one symbol
/// character, and the whole name has at most `MAX_SYMBOL_CHARS`.
pub open spec fn valid_symbol_at(s: Seq<char>, i: int, allow_prefix: bool) -> bool {
    &&& i < s.len()
    &&& is_symbol_start_char(s[i])
    &&& (allow_prefix && program_prefix_at(s, i) ==> symbol_run_end(s, i + 8) > i + 8)
    &&& symbol_end(s, i, allow_prefix) - i <= MAX_SYMBOL_CHARS
}

// ---- the path grammar ----

/// Parses the bracketed index list whose opening `[` was already
/// consumed: one or more comma-separated numbers, then `]`. Returns the
/// index segments and the position after the `]`.
pub open spec fn parse_elements(s: Seq<char>, i: int) -> Option<(Seq<SegView>, int)>
    decreases s.len() - i,
        via parse_elements_decreases
{
    if !valid_number_at(s, i) {
        None
    } else {
        let j = digit_run_end(s, i);
        let n = number_at(s, i);
        if j < s.len() && s[j] == ',' {
            match parse_elements(s, j + 1) {
                None => None,
                Some((rest, k)) => Some((seq![SegView::Element(n)] + rest, k)),
            }
        } else if j < s.len() && s[j] == ']' {
            Some((seq![SegView::Element(n)], j + 1))
        } else {
            None
        }
    }
}

#[via_fn]
proof fn parse_elements_decreases(s: Seq<char>, i: int) {
    lemma_digit_run_end_bounds(s, i);
}

/// Parses a symbol at `i` with its optional bracketed index list.
/// Returns the segments and the position after them.
pub open spec fn parse_head(s: Seq<char>, i: int, allow_prefix: bool) -> Option<
    (Seq<SegView>, int),
> {
    if !valid_symbol_at(s, i, allow_prefix) {
        None
    } else {
        let j = symbol_end(s, i, allow_prefix);
        let sym = SegView::Symbol(s.subrange(i, j));
        if j < s.len() && s[j] == '[' {
            match parse_elements(s, j + 1) {
                None => None,
                Some((elems, k)) => Some((seq![sym] + elems, k)),
            }
        } else {
            Some((seq![sym], j))
        }
    }
}

/// Parses what may follow position `i` after a complete head: nothing,
/// or `.` and a member, repeated. A member that is a bare number is a
/// bit access: it must close the path and name a bit below 32.
pub open spec fn parse_tail(s: Seq<char>, i: int) -> Option<Seq<SegView>>
    decreases s.len() - i,
        via parse_tail_decreases
{
    if i >= s.len() {
        Some(Seq::empty())
    } else if s[i] != '.' {
        None
    } else if i + 1 >= s.len() {
        None
    } else if is_digit_char(s[i + 1]) {
        if valid_number_at(s, i + 1) && digit_run_end(s, i + 1) == s.len() && number_at(s, i + 1)
            < 32 {
            Some(seq![SegView::Element(number_at(s, i + 1))])
        } else {
            None
        }
    } else {
        match parse_head(s, i + 1, false) {
            None => None,
            Some((segs, j)) => match parse_tail(s, j) {
                None => None,
                Some(rest) => Some(segs + rest),
            },
        }
    }
}

#[via_fn]
proof fn parse_tail_decreases(s: Seq<char>, i: int) {
    lemma_parse_head_bounds(s, i + 1, false);
}

/// The segments of a tag path, or `None` where the string breaks the
/// grammar. This is the whole grammar: a head symbol (the only one that
/// may carry a `program:` prefix), then members and bit access.
pub open spec fn tag_segments(s: Seq<char>) -> Option<Seq<SegView>> {
    if s.len() == 0 {
        None
    } else {
        match parse_head(s, 0, true) {
            None => None,
            Some((segs, j)) => match parse_tail(s, j) {
                None => None,
                Some(rest) => Some(segs + rest),
            },
        }
    }
}

/// The string follows the tag-path grammar.
pub open spec fn valid_tag(s: Seq<char>) -> bool {
    tag_segments(s) is Some
}

// ---- bounds of the grammar functions ----

/// A digit run only moves forward and never passes the end.
pub proof fn lemma_digit_run_end_bounds(s: Seq<char>, i: int)
    ensures
        i <= digit_run_end(s, i),
        i <= s.len() ==> digit_run_end(s, i) <= s.len(),
    decreases s.len() - i,
{
    if i < s.len() && is_digit_char(s[i]) {
        lemma_digit_run_end_bounds(s, i + 1);
    }
}

/// A symbol run only moves forward and never passes the end.
pub proof fn lemma_symbol_run_end_bounds(s: Seq<char>, i: int)
    ensures
        i <= symbol_run_end(s, i),
        i <= s.len() ==> symbol_run_end(s, i) <= s.len(),
    decreases s.len() - i,
{
    if i < s.len() && is_symbol_char(s[i]) {
        lemma_symbol_run_end_bounds(s, i + 1);
    }
}

/// Every character of a digit run is a digit.
pub proof fn lemma_digit_run_chars(s: Seq<char>, i: int)
    ensures
        forall|m: int| i <= m < digit_run_end(s, i) ==> is_digit_char(s[m]),
    decreases s.len() - i,
{
    if i < s.len() && is_digit_char(s[i]) {
        lemma_digit_run_chars(s, i + 1);
    }
}

/// An index list moves the position strictly forward, at most to the end.
pub proof fn lemma_parse_elements_bounds(s: Seq<char>, i: int)
    ensures
        parse_elements(s, i) matches Some((e, k)) ==> i < k <= s.len(),
    decreases s.len() - i,
{
    lemma_digit_run_end_bounds(s, i);
    if valid_number_at(s, i) {
        let j = digit_run_end(s, i);
        if j < s.len() && s[j] == ',' {
            lemma_parse_elements_bounds(s, j + 1);
        }
    }
}

/// A head moves the position strictly forward, at most to the end.
pub proof fn lemma_parse_head_bounds(s: Seq<char>, i: int, allow_prefix: bool)
    ensures
        parse_head(s, i, allow_prefix) matches Some((g, j)) ==> i < j <= s.len(),
{
    lemma_symbol_run_end_bounds(s, i);
    lemma_symbol_run_end_bounds(s, i + 1);
    lemma_symbol_run_end_bounds(s, i + 8);
    if valid_symbol_at(s, i, allow_prefix) {
        let j = symbol_end(s, i, allow_prefix);
        lemma_parse_elements_bounds(s, j + 1);
    }
}

/// A digit string of digits only has a non-negative value.
pub proof fn lemma_digits_value_nonneg(s: Seq<char>, i: int, j: int)
    requires
        forall|m: int| i <= m < j ==> is_digit_char(s[m]),
    ensures
        digits_value(s, i, j) >= 0,
    decreases j - i,
{
    if j > i {
        lemma_digits_value_nonneg(s, i, j - 1);
    }
}

/// Reading more digits never shrinks the value.
proof fn lemma_digits_value_monotone(s: Seq<char>, i: int, j: int, k: int)
    requires
        i <= j <= k,
        forall|m: int| i <= m < k ==> is_digit_char(s[m]),
    ensures
        digits_value(s, i, j) <= digits_value(s, i, k),
    decreases k - j,
{
    if j < k {
        lemma_digits_value_monotone(s, i, j, k - 1);
        lemma_digits_value_nonneg(s, i, k - 1);
    }
}

/// Appending one segment to a vector appends its view.
proof fn lemma_segments_view_push(v: Seq<Segment>, x: Segment)
    ensures
        segments_view(v.push(x)) == segments_view(v) + seq![x@],
{
    assert(segments_view(v.push(x)) =~= segments_view(v) + seq![x@]);
}

// ---- the executable parser ----

fn is_digit_x(c: char) -> (r: bool)
    ensures
        r == is_digit_char(c),
{
    let u = c as u32;
    48 <= u && u <= 57
}

fn is_alpha_x(c: char) -> (r: bool)
    ensures
        r == is_alpha_char(c),
{
    let u = c as u32;
    (97 <= u && u <= 122) || (65 <= u && u <= 90)
}

fn is_symbol_char_x(c: char) -> (r: bool)
    ensures
        r == is_symbol_char(c),
{
    c == '_' || is_digit_x(c) || is_alpha_x(c)
}

fn is_symbol_start_x(c: char) -> (r: bool)
    ensures
        r == is_symbol_start_char(c),
{
    c == '_' || is_alpha_x(c)
}

fn digit_run_end_x(s: &str, i: usize, n: usize) -> (j: usize)
    requires
        i <= n,
        n as int == s@.len(),
    ensures
        j as int == digit_run_end(s@, i as int),
        i <= j <= n,
    decreases n - i,
{
    if i < n {
        let c = s.get_char(i);
        if is_digit_x(c) {
            return digit_run_end_x(s, i + 1, n);
        }
    }
    i
}

fn symbol_run_end_x(s: &str, i: usize, n: usize) -> (j: usize)
    requires
        i <= n,
        n as int == s@.len(),
    ensures
        j as int == symbol_run_end(s@, i as int),
        i <= j <= n,
    decreases n - i,
{
    if i < n {
        let c = s.get_char(i);
        if is_symbol_char_x(c) {
            return symbol_run_end_x(s, i + 1, n);
        }
    }
    i
}

/// Reads the number starting at `i`: its value and the position after
/// its digits, or `None` where no well-formed number starts there.
pub(crate) fn parse_number_x(s: &str, i: usize, n: usize) -> (r: Option<(u32, usize)>)
    requires
        i <= n,
        n as int == s@.len(),
    ensures
        match r {
            Some(p) => valid_number_at(s@, i as int) && p.0 == number_at(s@, i as int) && p.1
                as int == digit_run_end(s@, i as int) && i < p.1 && p.1 <= n,
            None => !valid_number_at(s@, i as int),
        },
{
    let j = digit_run_end_x(s, i, n);
    if j == i {
        return None;
    }
    if j - i > MAX_INDEX_DIGITS {
        return None;
    }
    proof {
        lemma_digit_run_chars(s@, i as int);
    }
    let mut acc: u64 = 0;
    let mut k = i;
    while k < j
        invariant
            i <= k <= j <= n,
            n as int == s@.len(),
            j as int == digit_run_end(s@, i as int),
            forall|m: int| i <= m < j ==> is_digit_char(s@[m]),
            acc as int == digits_value(s@, i as int, k as int),
            acc <= u32::MAX as u64,
        decreases j - k,
    {
        let c = s.get_char(k);
        assert(is_digit_char(s@[k as int]));
        let d = (c as u32) - 48;
        let acc2: u64 = acc * 10 + d as u64;
        assert(acc2 as int == digits_value(s@, i as int, k as int + 1));
        if acc2 > u32::MAX as u64 {
            proof {
                lemma_digits_value_monotone(s@, i as int, k as int + 1, j as int);
            }
            return None;
        }
        acc = acc2;
        k += 1;
    }
    Some((acc as u32, j))
}

fn has_program_prefix_x(s: &str, i: usize, n: usize) -> (r: bool)
    requires
        i <= n,
        n as int == s@.len(),
    ensures
        r == program_prefix_at(s@, i as int),
{
    if n - i < 8 {
        return false;
    }
    let c0 = s.get_char(i);
    let c1 = s.get_char(i + 1);
    let c2 = s.get_char(i + 2);
    let c3 = s.get_char(i + 3);
    let c4 = s.get_char(i + 4);
    let c5 = s.get_char(i + 5);
    let c6 = s.get_char(i + 6);
    let c7 = s.get_char(i + 7);
    (c0 == 'p' || c0 == 'P') && (c1 == 'r' || c1 == 'R') && (c2 == 'o' || c2 == 'O') && (c3 == 'g'
        || c3 == 'G') && (c4 == 'r' || c4 == 'R') && (c5 == 'a' || c5 == 'A') && (c6 == 'm' || c6
        == 'M') && (c7 == ':')
}

/// Reads the symbol starting at `i`: its text and the position after it,
/// or `None` where no well-formed symbol starts there.
fn parse_symbol_x(s: &str, i: usize, n: usize, allow_prefix: bool) -> (r: Option<(String, usize)>)
    requires
        i <= n,
        n as int == s@.len(),
    ensures
        match r {
            Some(p) => valid_symbol_at(s@, i as int, allow_prefix) && p.1 as int == symbol_end(
                s@,
                i as int,
                allow_prefix,
            ) && p.0@ == s@.subrange(i as int, p.1 as int) && i < p.1 && p.1 <= n,
            None => !valid_symbol_at(s@, i as int, allow_prefix),
        },
{
    if i >= n {
        return None;
    }
    let c0 = s.get_char(i);
    if !is_symbol_start_x(c0) {
        return None;
    }
    let j: usize;
    if allow_prefix && has_program_prefix_x(s, i, n) {
        proof {
            lemma_symbol_run_end_bounds(s@, i as int + 8);
        }
        let j2 = symbol_run_end_x(s, i + 8, n);
        if j2 == i + 8 {
            return None;
        }
        j = j2;
    } else {
        proof {
            lemma_symbol_run_end_bounds(s@, i as int + 1);
        }
        j = symbol_run_end_x(s, i, n);
        assert(symbol_run_end(s@, i as int) == symbol_run_end(s@, i as int + 1));
    }
    if j - i > MAX_SYMBOL_CHARS {
        return None;
    }
    let sub = s.substring_char(i, j);
    Some((sub.to_owned(), j))
}

/// Reads a bracketed index list whose `[` was already consumed, pushing
/// the index segments onto `acc`. Returns the position after the `]`.
/// On `None`, `acc` holds no useful state and the caller discards it.
fn parse_elements_x(s: &str, i: usize, n: usize, acc: &mut Vec<Segment>) -> (r: Option<usize>)
    requires
        i <= n,
        n as int == s@.len(),
    ensures
        match r {
            Some(k) => parse_elements(s@, i as int) matches Some((elems, kk)) && kk == k as int
                && segments_view(final(acc)@) == segments_view(old(acc)@) + elems && i < k <= n,
            None => parse_elements(s@, i as int) is None,
        },
    decreases n - i,
{
    match parse_number_x(s, i, n) {
        None => None,
        Some((val, j)) => {
            if j < n {
                let c = s.get_char(j);
                if c == ',' {
                    let ghost pre = acc@;
                    acc.push(Segment::Element(val));
                    proof {
                        lemma_segments_view_push(pre, Segment::Element(val));
                    }
                    let ghost mid = acc@;
                    match parse_elements_x(s, j + 1, n, acc) {
                        None => None,
                        Some(k) => {
                            proof {
                                match parse_elements(s@, j as int + 1) {
                                    Some((rest, kk)) => {
                                        assert((segments_view(pre) + seq![
                                            SegView::Element(val),
                                        ]) + rest =~= segments_view(pre) + (seq![
                                            SegView::Element(val),
                                        ] + rest));
                                    },
                                    None => {},
                                }
                            }
                            Some(k)
                        },
                    }
                } else if c == ']' {
                    let ghost pre = acc@;
                    acc.push(Segment::Element(val));
                    proof {
                        lemma_segments_view_push(pre, Segment::Element(val));
                    }
                    Some(j + 1)
                } else {
                    None
                }
            } else {
                None
            }
        },
    }
}

/// Reads a symbol with its optional index list starting at `i`, pushing
/// the segments onto `acc`. Returns the position after them.
/// On `None`, `acc` holds no useful state and the caller discards it.
fn parse_head_x(s: &str, i: usize, n: usize, allow_prefix: bool, acc: &mut Vec<Segment>) -> (r:
    Option<usize>)
    requires
        i <= n,
        n as int == s@.len(),
    ensures
        match r {
            Some(j) => parse_head(s@, i as int, allow_prefix) matches Some((segs, jj)) && jj == j
                as int && segments_view(final(acc)@) == segments_view(old(acc)@) + segs && i < j
                <= n,
            None => parse_head(s@, i as int, allow_prefix) is None,
        },
{
    match parse_symbol_x(s, i, n, allow_prefix) {
        None => None,
        Some((name, j)) => {
            let ghost pre = acc@;
            acc.push(Segment::Symbol(name));
            proof {
                lemma_segments_view_push(pre, Segment::Symbol(name));
            }
            let mut bracket = false;
            if j < n {
                let c = s.get_char(j);
                if c == '[' {
                    bracket = true;
                }
            }
            if bracket {
                match parse_elements_x(s, j + 1, n, acc) {
                    None => None,
                    Some(k) => {
                        proof {
                            match parse_elements(s@, j as int + 1) {
                                Some((elems, kk)) => {
                                    assert((segments_view(pre) + seq![
                                        SegView::Symbol(s@.subrange(i as int, j as int)),
                                    ]) + elems =~= segments_view(pre) + (seq![
                                        SegView::Symbol(s@.subrange(i as int, j as int)),
                                    ] + elems));
                                },
                                None => {},
                            }
                        }
                        Some(k)
                    },
                }
            } else {
                Some(j)
            }
        },
    }
}

/// Parses a tag path. Returns the validated address holding exactly the
/// segments the grammar gives the string, or `InvalidAddress` where the
/// string breaks the grammar. Nothing is sent anywhere: validation is
/// purely local.
pub fn parse_tag(s: &str) -> (r: Result<Address, TagError>)
    ensures
        match tag_segments(s@) {
            Some(segs) => r matches Ok(a) && a@ == segs,
            None => r matches Err(e) && e == TagError::InvalidAddress,
        },
{
    let n = s.unicode_len();
    if n == 0 {
        return Err(TagError::InvalidAddress);
    }
    let mut segs: Vec<Segment> = Vec::new();
    let ghost empty_view = segments_view(segs@);
    let mut pos: usize = 0;
    match parse_head_x(s, 0, n, true, &mut segs) {
        None => {
            return Err(TagError::InvalidAddress);
        },
        Some(j) => {
            proof {
                match parse_head(s@, 0, true) {
                    Some((hsegs, jj)) => {
                        assert(empty_view + hsegs =~= hsegs);
                        assert(segments_view(segs@) == hsegs);
                    },
                    None => {},
                }
            }
            pos = j;
        },
    }
    while pos < n
        invariant
            pos <= n,
            n as int == s@.len(),
            tag_segments(s@) == (match parse_tail(s@, pos as int) {
                Some(rest) => Some(segments_view(segs@) + rest),
                None => None,
            }),
        decreases n - pos,
    {
        let c = s.get_char(pos);
        if c != '.' {
            return Err(TagError::InvalidAddress);
        }
        if pos + 1 >= n {
            return Err(TagError::InvalidAddress);
        }
        let c2 = s.get_char(pos + 1);
        if is_digit_x(c2) {
            match parse_number_x(s, pos + 1, n) {
                None => {
                    return Err(TagError::InvalidAddress);
                },
                Some((val, j)) => {
                    if j != n {
                        return Err(TagError::InvalidAddress);
                    }
                    if val >= 32 {
                        return Err(TagError::InvalidAddress);
                    }
                    let ghost pre = segs@;
                    segs.push(Segment::Element(val));
                    proof {
                        lemma_segments_view_push(pre, Segment::Element(val));
                        assert(segments_view(pre) + seq![SegView::Element(val)] + Seq::<
                            SegView,
                        >::empty() =~= segments_view(segs@));
                    }
                    pos = n;
                },
            }
        } else {
            let ghost pre = segs@;
            let ghost oldpos = pos as int;
            match parse_head_x(s, pos + 1, n, false, &mut segs) {
                None => {
                    return Err(TagError::InvalidAddress);
                },
                Some(j) => {
                    proof {
                        match parse_head(s@, oldpos + 1, false) {
                            Some((hsegs, jj)) => {
                                match parse_tail(s@, jj) {
                                    Some(rest) => {
                                        assert((segments_view(pre) + hsegs) + rest
                                            =~= segments_view(pre) + (hsegs + rest));
                                    },
                                    None => {},
                                }
                            },
                            None => {},
                        }
                    }
                    pos = j;
                },
            }
        }
    }
    proof {
        assert(parse_tail(s@, pos as int) == Some(Seq::<SegView>::empty()));
        assert(segments_view(segs@) + Seq::<SegView>::empty() =~= segments_view(segs@));
    }
    Ok(Address { segments: segs })
}

} // verus!
