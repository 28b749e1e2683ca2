//! Text handling on sequences of characters: searching, splitting,
//! replacing and trimming, each with its meaning stated over `Seq<char>`.

use vstd::prelude::*;
use vstd::string::StringExecFns;

verus! {

/// An optional string as plain values.
pub open spec fn optional_text(value: Option<String>) -> Option<Seq<char>> {
    match value {
        Some(s) => Some(s@),
        None => None,
    }
}

/// The views of a list of strings, in order.
pub open spec fn string_views(items: Seq<String>) -> Seq<Seq<char>> {
    Seq::new(items.len(), |i: int| items[i]@)
}

/// Copies a list of strings.
pub fn duplicate_strings(items: &Vec<String>) -> (copy: Vec<String>)
    ensures
        string_views(copy@) == string_views(items@),
        copy@.len() == items@.len(),
{
    let mut copy: Vec<String> = Vec::new();
    let mut k: usize = 0;
    while k < items.len()
        invariant
            k <= items.len(),
            copy@.len() == k,
            forall|i: int| 0 <= i < k ==> (#[trigger] copy@[i])@ == items@[i]@,
        decreases items.len() - k,
    {
        copy.push(items[k].clone());
        k = k + 1;
    }
    assert(string_views(copy@) =~= string_views(items@));
    copy
}

/// The characters of a string, in order.
pub fn chars_of(s: &str) -> (v: Vec<char>)
    ensures
        v@ == s@,
{
    let mut v: Vec<char> = Vec::new();
    for c in it: s.chars()
        invariant
            it.seq() == s@,
            v@ == it.seq().take(it.index() as int),
    {
        v.push(c);
        assert(it.seq().take(it.index() + 1) =~= it.seq().take(it.index() as int).push(c));
    }
    assert(v@ =~= s@);
    v
}

/// Collects characters into a `String` (`FromIterator<&char>` of `String`):
/// the string holds exactly these characters, in order.
#[verifier::external_body]
pub(crate) fn string_of(chars: &Vec<char>) -> (s: String)
    ensures
        s@ == chars@,
{
    chars.iter().collect()
}

/// Appends `src[from..to]` to `out`.
fn push_range(out: &mut Vec<char>, src: &Vec<char>, from: usize, to: usize)
    requires
        from <= to <= src.len(),
    ensures
        final(out)@ == old(out)@ + src@.subrange(from as int, to as int),
{
    let mut k: usize = from;
    assert(src@.subrange(from as int, from as int) =~= Seq::<char>::empty());
    assert(out@ =~= old(out)@ + src@.subrange(from as int, from as int));
    while k < to
        invariant
            from <= k <= to <= src.len(),
            out@ == old(out)@ + src@.subrange(from as int, k as int),
        decreases to - k,
    {
        out.push(src[k]);
        assert(src@.subrange(from as int, k + 1) =~= src@.subrange(from as int, k as int).push(
            src@[k as int],
        ));
        k = k + 1;
        assert(out@ =~= old(out)@ + src@.subrange(from as int, k as int));
    }
}

/// A copy of `src[from..to]`.
fn copy_range(src: &Vec<char>, from: usize, to: usize) -> (out: Vec<char>)
    requires
        from <= to <= src.len(),
    ensures
        out@ == src@.subrange(from as int, to as int),
{
    let mut out: Vec<char> = Vec::new();
    push_range(&mut out, src, from, to);
    assert(out@ =~= src@.subrange(from as int, to as int));
    out
}

/// `needle` occurs in `hay` at position `i`.
pub open spec fn matches_at(hay: Seq<char>, needle: Seq<char>, i: int) -> bool {
    &&& 0 <= i
    &&& i + needle.len() <= hay.len()
    &&& hay.subrange(i, i + needle.len()) == needle
}

/// `needle` occurs somewhere in `hay`.
pub open spec fn contains_text(hay: Seq<char>, needle: Seq<char>) -> bool {
    exists|i: int| matches_at(hay, needle, i)
}

/// `hay` begins with `needle`.
pub open spec fn starts_with_text(hay: Seq<char>, needle: Seq<char>) -> bool {
    matches_at(hay, needle, 0)
}

/// The first position at or after `from` at which `needle` occurs in `hay`,
/// or `-1` where there is none.
pub open spec fn find_from(hay: Seq<char>, needle: Seq<char>, from: int) -> int
    decreases hay.len() - from,
{
    if from < 0 || from + needle.len() > hay.len() {
        -1
    } else if matches_at(hay, needle, from) {
        from
    } else if from + needle.len() == hay.len() {
        -1
    } else {
        find_from(hay, needle, from + 1)
    }
}

/// What `find_from` finds is an occurrence, and the first one.
pub proof fn lemma_find_from(hay: Seq<char>, needle: Seq<char>, from: int)
    requires
        0 <= from,
    ensures
        find_from(hay, needle, from) == -1 || (from <= find_from(hay, needle, from)
            && matches_at(hay, needle, find_from(hay, needle, from))),
        forall|i: int|
            from <= i && (i < find_from(hay, needle, from) || find_from(hay, needle, from) == -1)
                ==> !matches_at(hay, needle, i),
    decreases hay.len() - from,
{
    if from + needle.len() > hay.len() {
    } else if matches_at(hay, needle, from) {
    } else if from + needle.len() == hay.len() {
    } else {
        lemma_find_from(hay, needle, from + 1);
    }
}

/// `needle` occurs in `hay` exactly where a search from the start finds it.
pub proof fn lemma_contains_is_found(hay: Seq<char>, needle: Seq<char>)
    ensures
        contains_text(hay, needle) <==> find_from(hay, needle, 0) >= 0,
{
    lemma_find_from(hay, needle, 0);
    if find_from(hay, needle, 0) >= 0 {
        assert(matches_at(hay, needle, find_from(hay, needle, 0)));
    }
}

/// Whether `needle` occurs in `hay` at position `i`.
pub fn matches_here(hay: &Vec<char>, needle: &Vec<char>, i: usize) -> (b: bool)
    ensures
        b == matches_at(hay@, needle@, i as int),
{
    if needle.len() > hay.len() || i > hay.len() - needle.len() {
        return false;
    }
    let mut k: usize = 0;
    while k < needle.len()
        invariant
            k <= needle.len(),
            i + needle.len() <= hay.len(),
            forall|j: int| 0 <= j < k ==> hay@[i + j] == #[trigger] needle@[j],
        decreases needle.len() - k,
    {
        if hay[i + k] != needle[k] {
            assert(hay@.subrange(i as int, i + needle@.len())[k as int] != needle@[k as int]);
            return false;
        }
        k = k + 1;
    }
    assert(hay@.subrange(i as int, i + needle@.len()) =~= needle@);
    true
}

/// The first position at or after `from` at which `needle` occurs in `hay`.
pub fn find(hay: &Vec<char>, needle: &Vec<char>, from: usize) -> (found: Option<usize>)
    ensures
        match found {
            Some(i) => find_from(hay@, needle@, from as int) == i,
            None => find_from(hay@, needle@, from as int) == -1,
        },
{
    if needle.len() > hay.len() {
        return None;
    }
    let last: usize = hay.len() - needle.len();
    let mut i: usize = from;
    while i <= last
        invariant
            from <= i,
            last + needle.len() == hay.len(),
            find_from(hay@, needle@, from as int) == find_from(hay@, needle@, i as int),
        decreases last + 1 - i,
    {
        if matches_here(hay, needle, i) {
            return Some(i);
        }
        if i == last {
            return None;
        }
        i = i + 1;
    }
    None
}

/// Whether `needle` occurs somewhere in `hay`.
pub fn contains(hay: &Vec<char>, needle: &Vec<char>) -> (b: bool)
    ensures
        b == contains_text(hay@, needle@),
{
    proof {
        lemma_contains_is_found(hay@, needle@);
    }
    find(hay, needle, 0).is_some()
}

/// Whether `hay` begins with `needle`.
pub fn starts_with(hay: &Vec<char>, needle: &Vec<char>) -> (b: bool)
    ensures
        b == starts_with_text(hay@, needle@),
{
    matches_here(hay, needle, 0)
}


/// The pieces of `hay[from..]` between the occurrences of a non-empty
/// `needle`, found from left to right without overlap. Where `needle` is
/// empty or does not occur, the rest of `hay` is the only piece.
pub open spec fn split_from(hay: Seq<char>, needle: Seq<char>, from: int) -> Seq<Seq<char>>
    decreases hay.len() - from,
{
    let m = find_from(hay, needle, from);
    if needle.len() == 0 || m < from || m + needle.len() > hay.len() {
        seq![hay.subrange(from, hay.len() as int)]
    } else {
        seq![hay.subrange(from, m)] + split_from(hay, needle, m + needle.len())
    }
}

/// The pieces of `hay` between the occurrences of `needle`.
pub open spec fn split_on(hay: Seq<char>, needle: Seq<char>) -> Seq<Seq<char>> {
    split_from(hay, needle, 0)
}

/// The view of every vector of a list.
pub open spec fn views(pieces: Seq<Vec<char>>) -> Seq<Seq<char>> {
    Seq::new(pieces.len(), |i: int| pieces[i]@)
}

/// Splits `hay` at every occurrence of `needle`.
pub fn split(hay: &Vec<char>, needle: &Vec<char>) -> (pieces: Vec<Vec<char>>)
    ensures
        views(pieces@) == split_on(hay@, needle@),
        pieces@.len() >= 1,
{
    let mut pieces: Vec<Vec<char>> = Vec::new();
    let mut from: usize = 0;
    assert(views(pieces@) =~= Seq::<Seq<char>>::empty());
    loop
        invariant_except_break
            from <= hay.len(),
            split_on(hay@, needle@) == views(pieces@) + split_from(hay@, needle@, from as int),
        ensures
            views(pieces@) == split_on(hay@, needle@),
            pieces@.len() >= 1,
        decreases hay.len() - from,
    {
        proof {
            lemma_find_from(hay@, needle@, from as int);
        }
        let found: Option<usize> = if needle.len() == 0 {
            None
        } else {
            find(hay, needle, from)
        };
        match found {
            None => {
                let rest: Vec<char> = copy_range(hay, from, hay.len());
                let ghost before = views(pieces@);
                pieces.push(rest);
                assert(views(pieces@) =~= before + seq![hay@.subrange(
                    from as int,
                    hay@.len() as int,
                )]);
                break ;
            },
            Some(m) => {
                let piece: Vec<char> = copy_range(hay, from, m);
                let ghost before = views(pieces@);
                pieces.push(piece);
                assert(views(pieces@) =~= before + seq![hay@.subrange(from as int, m as int)]);
                assert(before + (seq![hay@.subrange(from as int, m as int)] + split_from(
                    hay@,
                    needle@,
                    m + needle@.len(),
                )) =~= views(pieces@) + split_from(hay@, needle@, m + needle@.len()));
                from = m + needle.len();
            },
        }
    }
    pieces
}

/// `hay[from..]` with every occurrence of a non-empty `needle` replaced by
/// `with`, occurrences found from left to right without overlap. An empty
/// `needle` replaces nothing.
pub open spec fn replace_from(hay: Seq<char>, needle: Seq<char>, with: Seq<char>, from: int) -> Seq<
    char,
>
    decreases hay.len() - from,
{
    let m = find_from(hay, needle, from);
    if needle.len() == 0 || m < from || m + needle.len() > hay.len() {
        hay.subrange(from, hay.len() as int)
    } else {
        hay.subrange(from, m) + with + replace_from(hay, needle, with, m + needle.len())
    }
}

/// `hay` with every occurrence of `needle` replaced by `with`.
pub open spec fn replaced(hay: Seq<char>, needle: Seq<char>, with: Seq<char>) -> Seq<char> {
    replace_from(hay, needle, with, 0)
}

/// Replaces every occurrence of `needle` in `hay` by `with`.
pub fn replace(hay: &Vec<char>, needle: &Vec<char>, with: &Vec<char>) -> (out: Vec<char>)
    ensures
        out@ == replaced(hay@, needle@, with@),
{
    let mut out: Vec<char> = Vec::new();
    let mut from: usize = 0;
    assert(out@ + replace_from(hay@, needle@, with@, 0) =~= replaced(hay@, needle@, with@));
    loop
        invariant_except_break
            from <= hay.len(),
            replaced(hay@, needle@, with@) == out@ + replace_from(
                hay@,
                needle@,
                with@,
                from as int,
            ),
        ensures
            out@ == replaced(hay@, needle@, with@),
        decreases hay.len() - from,
    {
        proof {
            lemma_find_from(hay@, needle@, from as int);
        }
        let found: Option<usize> = if needle.len() == 0 {
            None
        } else {
            find(hay, needle, from)
        };
        match found {
            None => {
                push_range(&mut out, hay, from, hay.len());
                break ;
            },
            Some(m) => {
                let ghost before = out@;
                push_range(&mut out, hay, from, m);
                push_range(&mut out, with, 0, with.len());
                assert(with@.subrange(0, with@.len() as int) =~= with@);
                assert(out@ + replace_from(hay@, needle@, with@, m + needle@.len()) =~= before + (
                hay@.subrange(from as int, m as int) + with@ + replace_from(
                    hay@,
                    needle@,
                    with@,
                    m + needle@.len(),
                )));
                from = m + needle.len();
            },
        }
    }
    out
}

/// The characters with the Unicode property `White_Space`.
pub open spec fn is_white_space(c: char) -> bool {
    let n = c as u32;
    ||| 0x09 <= n <= 0x0D
    ||| n == 0x20
    ||| n == 0x85
    ||| n == 0xA0
    ||| n == 0x1680
    ||| 0x2000 <= n <= 0x200A
    ||| n == 0x2028
    ||| n == 0x2029
    ||| n == 0x202F
    ||| n == 0x205F
    ||| n == 0x3000
}

/// Whether `c` has the Unicode property `White_Space`.
pub fn white_space(c: char) -> (b: bool)
    ensures
        b == is_white_space(c),
{
    let n: u32 = c as u32;
    (0x09 <= n && n <= 0x0D) || n == 0x20 || n == 0x85 || n == 0xA0 || n == 0x1680 || (0x2000 <= n
        && n <= 0x200A) || n == 0x2028 || n == 0x2029 || n == 0x202F || n == 0x205F || n == 0x3000
}

/// `s` without its leading white space.
pub open spec fn trim_start(s: Seq<char>) -> Seq<char>
    decreases s.len(),
{
    if s.len() > 0 && is_white_space(s.first()) {
        trim_start(s.drop_first())
    } else {
        s
    }
}

/// `s` without its trailing white space.
pub open spec fn trim_end(s: Seq<char>) -> Seq<char>
    decreases s.len(),
{
    if s.len() > 0 && is_white_space(s.last()) {
        trim_end(s.drop_last())
    } else {
        s
    }
}

/// `s` without leading and trailing white space.
pub open spec fn trimmed(s: Seq<char>) -> Seq<char> {
    trim_end(trim_start(s))
}

/// Removes leading and trailing white space.
pub fn trim(s: &Vec<char>) -> (out: Vec<char>)
    ensures
        out@ == trimmed(s@),
{
    let mut start: usize = 0;
    assert(s@.subrange(0, s@.len() as int) =~= s@);
    while start < s.len() && white_space(s[start])
        invariant
            start <= s.len(),
            trim_start(s@) == trim_start(s@.subrange(start as int, s@.len() as int)),
        decreases s.len() - start,
    {
        assert(s@.subrange(start as int, s@.len() as int).drop_first() =~= s@.subrange(
            start + 1,
            s@.len() as int,
        ));
        start = start + 1;
    }
    assert(trim_start(s@) == s@.subrange(start as int, s@.len() as int));
    let mut end: usize = s.len();
    while end > start && white_space(s[end - 1])
        invariant
            start <= end <= s.len(),
            trimmed(s@) == trim_end(s@.subrange(start as int, end as int)),
        decreases end,
    {
        assert(s@.subrange(start as int, end as int).drop_last() =~= s@.subrange(
            start as int,
            end - 1,
        ));
        end = end - 1;
    }
    copy_range(s, start, end)
}

/// The pieces joined with `sep` between neighbours.
pub open spec fn joined(pieces: Seq<Seq<char>>, sep: Seq<char>) -> Seq<char>
    decreases pieces.len(),
{
    if pieces.len() == 0 {
        Seq::empty()
    } else if pieces.len() == 1 {
        pieces[0]
    } else {
        joined(pieces.drop_last(), sep) + sep + pieces.last()
    }
}

/// Whether `needle` occurs somewhere in `hay`.
pub fn str_contains(hay: &str, needle: &str) -> (b: bool)
    ensures
        b == contains_text(hay@, needle@),
{
    contains(&chars_of(hay), &chars_of(needle))
}

/// Whether `hay` begins with `needle`.
pub fn str_starts_with(hay: &str, needle: &str) -> (b: bool)
    ensures
        b == starts_with_text(hay@, needle@),
{
    starts_with(&chars_of(hay), &chars_of(needle))
}

/// `s` without leading and trailing white space.
pub fn str_trim(s: &str) -> (out: String)
    ensures
        out@ == trimmed(s@),
{
    string_of(&trim(&chars_of(s)))
}

/// Joins the strings with `sep` between neighbours.
pub fn str_join(pieces: &Vec<String>, sep: &str) -> (out: String)
    ensures
        out@ == joined(string_views(pieces@), sep@),
{
    let mut out: String = String::new();
    let mut k: usize = 0;
    assert(string_views(pieces@).take(0) =~= Seq::<Seq<char>>::empty());
    while k < pieces.len()
        invariant
            k <= pieces.len(),
            out@ == joined(string_views(pieces@).take(k as int), sep@),
        decreases pieces.len() - k,
    {
        let ghost before = out@;
        if k > 0 {
            out.append(sep);
        }
        out.append(pieces[k].as_str());
        proof {
            let upto = string_views(pieces@).take(k + 1);
            assert(upto.drop_last() =~= string_views(pieces@).take(k as int));
            assert(upto.last() == pieces@[k as int]@);
            if k == 0 {
                assert(out@ =~= pieces@[k as int]@);
            }
        }
        k = k + 1;
    }
    assert(string_views(pieces@).take(k as int) =~= string_views(pieces@));
    out
}

/// How many bytes the text takes in UTF-8.
pub open spec fn utf8_len(s: Seq<char>) -> nat {
    vstd::utf8::encode_utf8(s).len()
}

/// How many bytes the string takes.
pub fn byte_len(s: &str) -> (n: usize)
    ensures
        n as nat == utf8_len(s@),
{
    s.as_bytes().len()
}

/// The decimal digit for a number below ten.
pub open spec fn digit_char(d: int) -> char {
    if d == 0 {
        '0'
    } else if d == 1 {
        '1'
    } else if d == 2 {
        '2'
    } else if d == 3 {
        '3'
    } else if d == 4 {
        '4'
    } else if d == 5 {
        '5'
    } else if d == 6 {
        '6'
    } else if d == 7 {
        '7'
    } else if d == 8 {
        '8'
    } else {
        '9'
    }
}

/// A number that is not negative, written in decimal digits.
pub open spec fn decimal_digits(n: nat) -> Seq<char>
    decreases n,
{
    if n < 10 {
        seq![digit_char(n as int)]
    } else {
        decimal_digits(n / 10).push(digit_char((n % 10) as int))
    }
}

/// A number written in decimal, with a minus sign where it is negative.
pub open spec fn decimal_text(n: int) -> Seq<char> {
    if n < 0 {
        seq!['-'] + decimal_digits((-n) as nat)
    } else {
        decimal_digits(n as nat)
    }
}

/// The decimal digit for a number below ten.
fn digit_of(d: u64) -> (c: char)
    requires
        d < 10,
    ensures
        c == digit_char(d as int),
{
    if d == 0 {
        '0'
    } else if d == 1 {
        '1'
    } else if d == 2 {
        '2'
    } else if d == 3 {
        '3'
    } else if d == 4 {
        '4'
    } else if d == 5 {
        '5'
    } else if d == 6 {
        '6'
    } else if d == 7 {
        '7'
    } else if d == 8 {
        '8'
    } else {
        '9'
    }
}

/// Writes a number that is not negative in decimal digits.
fn digits_of(n: u64) -> (out: Vec<char>)
    ensures
        out@ == decimal_digits(n as nat),
    decreases n,
{
    if n < 10 {
        let mut out: Vec<char> = Vec::new();
        out.push(digit_of(n));
        assert(out@ =~= seq![digit_char(n as int)]);
        out
    } else {
        let mut out: Vec<char> = digits_of(n / 10);
        out.push(digit_of(n % 10));
        out
    }
}

/// Writes a number in decimal.
pub fn number_text(n: i32) -> (out: String)
    ensures
        out@ == decimal_text(n as int),
{
    if n < 0 {
        let size: u64 = (-(n as i64)) as u64;
        let digits: Vec<char> = digits_of(size);
        let mut all: Vec<char> = Vec::new();
        all.push('-');
        push_range(&mut all, &digits, 0, digits.len());
        assert(digits@.subrange(0, digits@.len() as int) =~= digits@);
        assert(all@ =~= seq!['-'] + digits@);
        string_of(&all)
    } else {
        string_of(&digits_of(n as u64))
    }
}

} // verus!
