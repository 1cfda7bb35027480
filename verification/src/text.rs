//! Text: writing and reading whole numbers, taking lists apart, joining lines.

use vstd::prelude::*;

verus! {

// ---- characters --------------------------------------------------------

/// What `char::is_alphanumeric` answers for a character beyond ASCII.
pub uninterp spec fn wide_letter_or_digit(c: char) -> bool;

/// Whether a character is a letter or a digit.
pub open spec fn letter_or_digit(c: char) -> bool {
    if (c as u32) < 128 {
        'a' <= c <= 'z' || 'A' <= c <= 'Z' || '0' <= c <= '9'
    } else {
        wide_letter_or_digit(c)
    }
}

/// `char::is_alphanumeric`: whether the character is a letter or a number by
/// Unicode's properties. Of the ASCII characters these are `A` to `Z`, `a` to
/// `z` and `0` to `9`; which of the others are is not said here.
#[verifier::external_body]
pub(crate) fn is_letter_or_digit(c: char) -> (r: bool)
    ensures
        (c as u32) < 128 ==> r == ('a' <= c <= 'z' || 'A' <= c <= 'Z' || '0' <= c <= '9'),
        (c as u32) >= 128 ==> r == wide_letter_or_digit(c),
{
    c.is_alphanumeric()
}

/// What `char::is_whitespace` answers for a character beyond ASCII.
pub uninterp spec fn wide_blank(c: char) -> bool;

/// Whether a character is a blank.
pub open spec fn blank(c: char) -> bool {
    if (c as u32) < 128 {
        c == ' ' || 9 <= c as u32 <= 13
    } else {
        wide_blank(c)
    }
}

/// `char::is_whitespace`: whether the character has Unicode's `White_Space`
/// property. Of the ASCII characters these are the space and the five from
/// tab to carriage return; which of the others are is not said here.
#[verifier::external_body]
pub(crate) fn is_blank(c: char) -> (r: bool)
    ensures
        (c as u32) < 128 ==> r == (c == ' ' || 9 <= c as u32 <= 13),
        (c as u32) >= 128 ==> r == wide_blank(c),
{
    c.is_whitespace()
}

/// `String::push`: appends the character to the end of the string.
pub assume_specification[ String::push ](s: &mut String, c: char)
    ensures
        final(s)@ == old(s)@.push(c),
;

/// The characters of a text, one by one.
pub fn characters(s: &str) -> (r: Vec<char>)
    ensures
        r@ == s@,
{
    let mut out: Vec<char> = Vec::new();
    for c in it: s.chars()
        invariant
            it.seq() == s@,
            out@ == s@.take(it.index()),
    {
        out.push(c);
        assert(s@.take(it.index() + 1) =~= s@.take(it.index()).push(c));
    }
    assert(s@.take(s@.len() as int) =~= s@);
    out
}

/// The text made of the characters from `from` up to `to`.
pub fn excerpt(chars: &Vec<char>, from: usize, to: usize) -> (r: String)
    requires
        from <= to <= chars@.len(),
    ensures
        r@ == chars@.subrange(from as int, to as int),
{
    let mut out: String = String::new();
    let mut i: usize = from;
    while i < to
        invariant
            from <= i <= to <= chars@.len(),
            out@ == chars@.subrange(from as int, i as int),
        decreases to - i,
    {
        out.push(chars[i]);
        assert(chars@.subrange(from as int, i as int).push(chars@[i as int])
            =~= chars@.subrange(from as int, i + 1));
        i = i + 1;
    }
    out
}

/// Whether two texts are the same.
pub fn same(a: &str, b: &str) -> (r: bool)
    ensures
        r == (a@ == b@),
{
    a.to_string() == b.to_string()
}

// ---- whole numbers -----------------------------------------------------

pub open spec fn digit(value: int) -> char {
    (48 + value) as char
}

/// A natural number in decimal notation, without leading zeros.
pub open spec fn decimal(n: nat) -> Seq<char>
    decreases n,
{
    if n < 10 {
        seq![digit(n as int)]
    } else {
        decimal(n / 10).push(digit((n % 10) as int))
    }
}

/// A whole number in decimal notation.
pub open spec fn signed_decimal(n: int) -> Seq<char> {
    if n < 0 {
        seq!['-'] + decimal((-n) as nat)
    } else {
        decimal(n as nat)
    }
}

pub fn write_decimal(n: u64) -> (r: String)
    ensures
        r@ == decimal(n as nat),
    decreases n,
{
    let last: u8 = (n % 10) as u8;
    let c: char = (48 + last) as char;
    if n < 10 {
        let mut out: String = String::new();
        out.push(c);
        assert(out@ =~= seq![digit(n as int)]);
        out
    } else {
        let mut out: String = write_decimal(n / 10);
        out.push(c);
        out
    }
}

pub fn write_signed_decimal(n: i64) -> (r: String)
    ensures
        r@ == signed_decimal(n as int),
{
    if n < 0 {
        let size: u64 = if n == i64::MIN {
            0x8000_0000_0000_0000
        } else {
            (-n) as u64
        };
        let mut out: String = String::new();
        out.push('-');
        assert(out@ =~= seq!['-']);
        out.append(write_decimal(size).as_str());
        out
    } else {
        write_decimal(n as u64)
    }
}

pub open spec fn is_digit(c: char) -> bool {
    '0' <= c <= '9'
}

pub open spec fn all_digits(s: Seq<char>) -> bool {
    forall|i: int| 0 <= i < s.len() ==> is_digit(#[trigger] s[i])
}

/// The number that a run of digits stands for.
pub open spec fn digits_value(s: Seq<char>) -> nat
    decreases s.len(),
{
    if s.len() == 0 {
        0
    } else {
        (digits_value(s.drop_last()) * 10 + (s.last() as int - 48)) as nat
    }
}

/// A natural number as it may be written: digits, at least one of them, after
/// a plus sign or none, for a number of at most `max`.
pub open spec fn read_natural(s: Seq<char>, max: nat) -> Option<nat> {
    let digits = if s.len() > 0 && s[0] == '+' {
        s.drop_first()
    } else {
        s
    };
    if digits.len() > 0 && all_digits(digits) && digits_value(digits) <= max {
        Some(digits_value(digits))
    } else {
        None
    }
}

/// A whole number of 64 bits as it may be written: as a natural number, or
/// with a minus sign before the digits.
pub open spec fn read_whole(s: Seq<char>) -> Option<int> {
    if s.len() > 0 && s[0] == '-' {
        let digits = s.drop_first();
        if digits.len() > 0 && all_digits(digits) && digits_value(digits) <= 0x8000_0000_0000_0000 {
            Some(-(digits_value(digits) as int))
        } else {
            None
        }
    } else {
        match read_natural(s, 0x7FFF_FFFF_FFFF_FFFF) {
            Some(n) => Some(n as int),
            None => None,
        }
    }
}

/// Reads the digits from `from` on.
fn read_digits(chars: &Vec<char>, from: usize, max: u64) -> (r: Option<u64>)
    requires
        from <= chars@.len(),
    ensures
        ({
            let digits = chars@.skip(from as int);
            match r {
                Some(n) => digits.len() > 0 && all_digits(digits) && n == digits_value(digits) && n
                    <= max,
                None => digits.len() == 0 || !all_digits(digits) || digits_value(digits) > max,
            }
        }),
{
    let ghost digits = chars@.skip(from as int);
    if from == chars.len() {
        return None;
    }
    let mut total: u128 = 0;
    let mut beyond: bool = false;
    let mut i: usize = from;
    while i < chars.len()
        invariant
            from <= i <= chars@.len(),
            digits == chars@.skip(from as int),
            all_digits(digits.take(i - from)),
            beyond ==> digits_value(digits.take(i - from)) > max,
            !beyond ==> total == digits_value(digits.take(i - from)) && total <= max,
        decreases chars@.len() - i,
    {
        let c: char = chars[i];
        let ghost shorter = digits.take(i - from);
        let ghost longer = digits.take(i - from + 1);
        assert(longer.drop_last() =~= shorter);
        assert(longer.last() == c);
        assert(digits[i - from] == c);
        if c < '0' || c > '9' {
            assert(!all_digits(digits));
            return None;
        }
        let value: u128 = c as u128 - 48;
        assert(all_digits(longer)) by {
            assert forall|k: int| 0 <= k < longer.len() implies is_digit(#[trigger] longer[k]) by {
                if k < shorter.len() {
                    assert(longer[k] == shorter[k]);
                }
            }
        }
        if !beyond {
            total = total * 10 + value;
            if total > max as u128 {
                beyond = true;
            }
        }
        i = i + 1;
    }
    assert(digits.take(chars@.len() - from) =~= digits);
    if beyond {
        None
    } else {
        Some(total as u64)
    }
}

/// Reads a natural number of at most `max`.
pub fn parse_natural(s: &str, max: u64) -> (r: Option<u64>)
    ensures
        match r {
            Some(n) => read_natural(s@, max as nat) == Some(n as nat),
            None => read_natural(s@, max as nat) is None,
        },
{
    let chars: Vec<char> = characters(s);
    assert(s@.skip(0) =~= s@);
    if chars.len() > 0 && chars[0] == '+' {
        assert(s@.skip(1) =~= s@.drop_first());
        read_digits(&chars, 1, max)
    } else {
        read_digits(&chars, 0, max)
    }
}

/// Reads a whole number of 64 bits.
pub fn parse_whole(s: &str) -> (r: Option<i64>)
    ensures
        match r {
            Some(n) => read_whole(s@) == Some(n as int),
            None => read_whole(s@) is None,
        },
{
    let chars: Vec<char> = characters(s);
    if chars.len() > 0 && chars[0] == '-' {
        assert(s@.skip(1) =~= s@.drop_first());
        match read_digits(&chars, 1, 0x8000_0000_0000_0000) {
            Some(size) => {
                if size == 0x8000_0000_0000_0000 {
                    Some(i64::MIN)
                } else {
                    Some(-(size as i64))
                }
            },
            None => None,
        }
    } else {
        match parse_natural(s, 0x7FFF_FFFF_FFFF_FFFF) {
            Some(n) => Some(n as i64),
            None => None,
        }
    }
}

proof fn lemma_decimal_reads_back(n: nat)
    ensures
        decimal(n).len() > 0,
        all_digits(decimal(n)),
        digits_value(decimal(n)) == n,
    decreases n,
{
    if n < 10 {
        let s = decimal(n);
        assert(s.drop_last() =~= Seq::<char>::empty());
        assert(digits_value(s.drop_last()) == 0);
    } else {
        lemma_decimal_reads_back(n / 10);
        let s = decimal(n);
        assert(s.drop_last() =~= decimal(n / 10));
        assert forall|i: int| 0 <= i < s.len() implies is_digit(#[trigger] s[i]) by {
            if i < s.len() - 1 {
                assert(s[i] == decimal(n / 10)[i]);
            }
        }
    }
}

/// A number is written with digits only, without superfluous zeros before it.
pub proof fn lemma_decimal_is_plain(n: nat)
    ensures
        decimal(n).len() > 0,
        all_digits(decimal(n)),
        n == 0 ==> decimal(n) == seq!['0'],
        n > 0 ==> decimal(n)[0] != '0',
    decreases n,
{
    lemma_decimal_reads_back(n);
    if n >= 10 {
        lemma_decimal_is_plain(n / 10);
        assert(decimal(n)[0] == decimal(n / 10)[0]);
    }
}

/// What is read as a natural number is made of digits, behind a plus sign or
/// none, and stands for no more than is allowed; and all that is such can be
/// read.
pub proof fn lemma_natural_numbers(s: Seq<char>, max: nat)
    ensures
        read_natural(s, max) matches Some(n) ==> n <= max,
        read_natural(s, max) is Some ==> s.len() > 0 && (is_digit(s[0]) || (s[0] == '+' && s.len()
            > 1)) && forall|i: int| 1 <= i < s.len() ==> is_digit(#[trigger] s[i]),
        s.len() > 0 && all_digits(s) ==> read_natural(s, max) == (if digits_value(s) <= max {
            Some(digits_value(s))
        } else {
            None
        }),
        s.len() > 0 && all_digits(s) ==> read_natural(seq!['+'] + s, max) == read_natural(s, max),
{
    if s.len() > 0 && all_digits(s) {
        assert(is_digit(s[0]));
        assert((seq!['+'] + s).drop_first() =~= s);
    }
    if read_natural(s, max) is Some {
        if s[0] == '+' {
            let digits = s.drop_first();
            assert forall|i: int| 1 <= i < s.len() implies is_digit(#[trigger] s[i]) by {
                assert(s[i] == digits[i - 1]);
            }
        }
    }
}

/// One more digit makes tenfold the number and that digit.
pub proof fn lemma_one_more_digit(s: Seq<char>, value: int)
    requires
        0 <= value <= 9,
    ensures
        digits_value(Seq::<char>::empty()) == 0,
        digits_value(s.push(digit(value))) == 10 * digits_value(s) + value,
{
    assert(s.push(digit(value)).drop_last() =~= s);
}

/// What is written of a natural number is read back as that number.
pub proof fn lemma_natural_round_trip(n: nat, max: nat)
    requires
        n <= max,
    ensures
        read_natural(decimal(n), max) == Some(n),
{
    lemma_decimal_reads_back(n);
    assert(is_digit(decimal(n)[0]));
}

/// What is written of a whole number of 64 bits is read back as that number.
pub proof fn lemma_whole_round_trip(n: int)
    requires
        i64::MIN <= n <= i64::MAX,
    ensures
        read_whole(signed_decimal(n)) == Some(n),
{
    if n < 0 {
        lemma_decimal_reads_back((-n) as nat);
        assert(signed_decimal(n).drop_first() =~= decimal((-n) as nat));
    } else {
        lemma_natural_round_trip(n as nat, 0x7FFF_FFFF_FFFF_FFFF);
        lemma_decimal_reads_back(n as nat);
        assert(is_digit(decimal(n as nat)[0]));
    }
}

// ---- lists -------------------------------------------------------------

/// A text cut at every occurrence of a separator.
pub open spec fn pieces(s: Seq<char>, separator: char) -> Seq<Seq<char>>
    decreases s.len(),
{
    if s.len() == 0 {
        seq![Seq::<char>::empty()]
    } else {
        let before = pieces(s.drop_last(), separator);
        if s.last() == separator {
            before.push(Seq::<char>::empty())
        } else {
            before.update(before.len() - 1, before.last().push(s.last()))
        }
    }
}

/// Texts put one after another, with a separator between any two.
pub open spec fn joined(parts: Seq<Seq<char>>, separator: Seq<char>) -> Seq<char>
    decreases parts.len(),
{
    if parts.len() == 0 {
        Seq::<char>::empty()
    } else if parts.len() == 1 {
        parts[0]
    } else {
        joined(parts.drop_last(), separator) + separator + parts.last()
    }
}

pub open spec fn trimmed_start(s: Seq<char>) -> Seq<char>
    decreases s.len(),
{
    if s.len() > 0 && blank(s[0]) {
        trimmed_start(s.drop_first())
    } else {
        s
    }
}

pub open spec fn trimmed_end(s: Seq<char>) -> Seq<char>
    decreases s.len(),
{
    if s.len() > 0 && blank(s.last()) {
        trimmed_end(s.drop_last())
    } else {
        s
    }
}

/// A text without the blanks at its two ends.
pub open spec fn trimmed(s: Seq<char>) -> Seq<char> {
    trimmed_end(trimmed_start(s))
}

/// The texts of a list that are not empty once trimmed, trimmed.
pub open spec fn items(parts: Seq<Seq<char>>) -> Seq<Seq<char>>
    decreases parts.len(),
{
    if parts.len() == 0 {
        Seq::<Seq<char>>::empty()
    } else {
        let item = trimmed(parts.last());
        if item.len() == 0 {
            items(parts.drop_last())
        } else {
            items(parts.drop_last()).push(item)
        }
    }
}

/// The items of a list that is written with commas.
pub open spec fn list_items(s: Seq<char>) -> Seq<Seq<char>> {
    items(pieces(s, ','))
}

fn split(s: &str, separator: char) -> (r: Vec<String>)
    ensures
        r.deep_view() == pieces(s@, separator),
{
    let mut done: Vec<String> = Vec::new();
    let mut current: String = String::new();
    let ghost mut seen: Seq<char> = Seq::empty();
    assert(done.deep_view().push(current@) =~= pieces(seen, separator));
    for c in it: s.chars()
        invariant
            it.seq() == s@,
            seen == s@.take(it.index()),
            done.deep_view().push(current@) == pieces(seen, separator),
    {
        let ghost longer = seen.push(c);
        assert(longer.drop_last() =~= seen);
        let ghost before = done.deep_view();
        let ghost word = current@;
        if c == separator {
            done.push(current);
            current = String::new();
            assert(done.deep_view() =~= before.push(word));
            assert(done.deep_view().push(current@) =~= before.push(word).push(Seq::<char>::empty()));
        } else {
            current.push(c);
            assert(before.push(word.push(c)) =~= before.push(word).update(
                before.len() as int,
                word.push(c),
            ));
        }
        proof {
            seen = longer;
            assert(s@.take(it.index() + 1) =~= longer);
        }
    }
    assert(s@.take(s@.len() as int) =~= s@);
    let ghost before = done.deep_view();
    let ghost word = current@;
    done.push(current);
    assert(done.deep_view() =~= before.push(word));
    done
}

proof fn lemma_trimmed_start_step(s: Seq<char>, from: int)
    requires
        0 <= from < s.len(),
        blank(s[from]),
    ensures
        trimmed_start(s.skip(from)) == trimmed_start(s.skip(from + 1)),
{
    assert(s.skip(from)[0] == s[from]);
    assert(s.skip(from).drop_first() =~= s.skip(from + 1));
}

/// The text without the blanks at its two ends.
pub fn trim(s: &str) -> (r: String)
    ensures
        r@ == trimmed(s@),
{
    let chars: Vec<char> = characters(s);
    let mut from: usize = 0;
    assert(s@.skip(0) =~= s@);
    while from < chars.len() && is_blank(chars[from])
        invariant
            chars@ == s@,
            from <= chars@.len(),
            trimmed_start(s@) == trimmed_start(s@.skip(from as int)),
        ensures
            chars@ == s@,
            from <= chars@.len(),
            trimmed_start(s@) == s@.skip(from as int),
        decreases chars@.len() - from,
    {
        proof {
            lemma_trimmed_start_step(s@, from as int);
        }
        from = from + 1;
    }
    let ghost rest = s@.skip(from as int);
    let mut to: usize = chars.len();
    assert(s@.subrange(from as int, to as int) =~= rest);
    while to > from && is_blank(chars[to - 1])
        invariant
            chars@ == s@,
            from <= to <= chars@.len(),
            trimmed_end(rest) == trimmed_end(s@.subrange(from as int, to as int)),
        ensures
            chars@ == s@,
            from <= to <= chars@.len(),
            trimmed_end(rest) == s@.subrange(from as int, to as int),
        decreases to,
    {
        assert(s@.subrange(from as int, to as int).drop_last() =~= s@.subrange(
            from as int,
            to - 1,
        ));
        to = to - 1;
    }
    excerpt(&chars, from, to)
}

/// Takes a list apart that is written with commas: what stands between them,
/// trimmed, where anything is left.
pub fn split_list(s: &str) -> (r: Vec<String>)
    ensures
        r.deep_view() == list_items(s@),
{
    let parts: Vec<String> = split(s, ',');
    let ghost all = parts.deep_view();
    let mut out: Vec<String> = Vec::new();
    let mut i: usize = 0;
    assert(out.deep_view() =~= items(all.take(0)));
    while i < parts.len()
        invariant
            all == parts.deep_view(),
            i <= parts@.len(),
            out.deep_view() == items(all.take(i as int)),
        decreases parts@.len() - i,
    {
        let item: String = trim(parts[i].as_str());
        let ghost before = out.deep_view();
        let ghost word = item@;
        assert(all.take(i + 1).drop_last() =~= all.take(i as int));
        assert(all.take(i + 1).last() == parts@[i as int]@);
        if !item.as_str().is_empty() {
            out.push(item);
            assert(out.deep_view() =~= before.push(word));
        }
        i = i + 1;
    }
    assert(all.take(parts@.len() as int) =~= all);
    out
}

/// Puts the texts one after another, with a separator between any two.
pub fn join(parts: &Vec<String>, separator: &str) -> (r: String)
    ensures
        r@ == joined(parts.deep_view(), separator@),
{
    let ghost all = parts.deep_view();
    let mut out: String = String::new();
    let mut i: usize = 0;
    assert(out@ =~= joined(all.take(0), separator@));
    while i < parts.len()
        invariant
            all == parts.deep_view(),
            i <= parts@.len(),
            out@ == joined(all.take(i as int), separator@),
        decreases parts@.len() - i,
    {
        assert(all.take(i + 1).drop_last() =~= all.take(i as int));
        assert(all.take(i + 1).last() == parts@[i as int]@);
        if i == 0 {
            assert(out@ + parts@[0]@ =~= parts@[0]@);
        } else {
            out.append(separator);
        }
        out.append(parts[i].as_str());
        i = i + 1;
    }
    assert(all.take(parts@.len() as int) =~= all);
    out
}

/// No piece of a text that was cut holds the separator, and the pieces put
/// together again, with the separator between them, are the text.
pub proof fn lemma_pieces_make_the_text(s: Seq<char>, separator: char)
    ensures
        pieces(s, separator).len() > 0,
        forall|i: int| #![trigger pieces(s, separator)[i]]
            0 <= i < pieces(s, separator).len() ==> !pieces(s, separator)[i].contains(separator),
        joined(pieces(s, separator), seq![separator]) == s,
    decreases s.len(),
{
    let all = pieces(s, separator);
    if s.len() == 0 {
        assert(all[0] =~= s);
    } else {
        lemma_pieces_make_the_text(s.drop_last(), separator);
        let before = pieces(s.drop_last(), separator);
        let last = s.last();
        assert(s =~= s.drop_last().push(last));
        if last == separator {
            assert(all.drop_last() =~= before);
            assert(joined(all, seq![separator]) =~= s.drop_last() + seq![separator]
                + Seq::<char>::empty());
            assert(joined(all, seq![separator]) =~= s);
        } else {
            assert(all.drop_last() =~= before.drop_last());
            if before.len() == 1 {
                assert(joined(all, seq![separator]) =~= s);
            } else {
                let head = joined(before.drop_last(), seq![separator]) + seq![separator];
                assert(head + before.last().push(last) =~= (head + before.last()).push(last));
            }
            assert forall|i: int| #![trigger all[i]] 0 <= i < all.len() implies !all[i].contains(
                separator,
            ) by {
                if i == all.len() - 1 {
                    let piece = before.last();
                    assert(!before[before.len() - 1].contains(separator));
                    if piece.push(last).contains(separator) {
                        let k = choose|k: int|
                            0 <= k < piece.push(last).len() && piece.push(last)[k] == separator;
                        assert(k < piece.len());
                        assert(piece[k] == separator);
                    }
                } else {
                    assert(all[i] == before[i]);
                }
            }
        }
    }
}

proof fn lemma_trimmed_is_within(s: Seq<char>)
    ensures
        forall|c: char| #[trigger] trimmed(s).contains(c) ==> s.contains(c),
        trimmed(s).len() > 0 ==> !blank(trimmed(s)[0]) && !blank(trimmed(s).last()),
{
    lemma_trimmed_start_is_suffix(s);
    lemma_trimmed_end_is_prefix(trimmed_start(s));
    let start = trimmed_start(s);
    assert forall|c: char| #[trigger] trimmed(s).contains(c) implies s.contains(c) by {
        let k = choose|k: int| 0 <= k < trimmed(s).len() && trimmed(s)[k] == c;
        assert(start[k] == c);
        assert(s[s.len() - start.len() + k] == c);
    }
}

proof fn lemma_trimmed_start_is_suffix(s: Seq<char>)
    ensures
        trimmed_start(s).len() <= s.len(),
        trimmed_start(s) == s.skip(s.len() - trimmed_start(s).len()),
        trimmed_start(s).len() > 0 ==> !blank(trimmed_start(s)[0]),
    decreases s.len(),
{
    if s.len() > 0 && blank(s[0]) {
        lemma_trimmed_start_is_suffix(s.drop_first());
    }
    assert(trimmed_start(s) =~= s.skip(s.len() - trimmed_start(s).len()));
}

proof fn lemma_trimmed_end_is_prefix(s: Seq<char>)
    ensures
        trimmed_end(s).len() <= s.len(),
        trimmed_end(s) == s.take(trimmed_end(s).len() as int),
        trimmed_end(s).len() > 0 ==> !blank(trimmed_end(s).last()),
    decreases s.len(),
{
    if s.len() > 0 && blank(s.last()) {
        lemma_trimmed_end_is_prefix(s.drop_last());
    }
    assert(trimmed_end(s) =~= s.take(trimmed_end(s).len() as int));
}

/// A text is trimmed at its two ends only, and as far as there are blanks.
pub proof fn lemma_trimmed(s: Seq<char>) -> (ends: (int, int))
    ensures
        0 <= ends.0 <= ends.1 <= s.len(),
        trimmed(s) == s.subrange(ends.0, ends.1),
        forall|i: int| 0 <= i < ends.0 ==> blank(#[trigger] s[i]),
        forall|i: int| ends.1 <= i < s.len() ==> blank(#[trigger] s[i]),
        ends.0 < ends.1 ==> !blank(s[ends.0]) && !blank(s[ends.1 - 1]),
{
    let start = trimmed_start(s);
    let from: int = s.len() - start.len();
    let to: int = from + trimmed(s).len();
    lemma_trimmed_start_is_suffix(s);
    lemma_trimmed_end_is_prefix(start);
    lemma_blanks_before(s);
    lemma_blanks_behind(start);
    assert(trimmed(s) =~= s.subrange(from, to));
    assert forall|i: int| to <= i < s.len() implies blank(#[trigger] s[i]) by {
        assert(start[i - from] == s[i]);
    }
    if from < to {
        assert(start[0] == s[from]);
        assert(trimmed(s).last() == s[to - 1]);
    }
    (from, to)
}

proof fn lemma_blanks_before(s: Seq<char>)
    ensures
        forall|i: int| 0 <= i < s.len() - trimmed_start(s).len() ==> blank(#[trigger] s[i]),
    decreases s.len(),
{
    if s.len() > 0 && blank(s[0]) {
        let rest = s.drop_first();
        lemma_blanks_before(rest);
        assert forall|i: int| 0 <= i < s.len() - trimmed_start(s).len() implies blank(
            #[trigger] s[i],
        ) by {
            if i > 0 {
                assert(rest[i - 1] == s[i]);
            }
        }
    }
}

proof fn lemma_blanks_behind(s: Seq<char>)
    ensures
        forall|i: int| trimmed_end(s).len() <= i < s.len() ==> blank(#[trigger] s[i]),
    decreases s.len(),
{
    if s.len() > 0 && blank(s.last()) {
        let rest = s.drop_last();
        lemma_blanks_behind(rest);
        assert forall|i: int| trimmed_end(s).len() <= i < s.len() implies blank(#[trigger] s[i]) by {
            if i < rest.len() {
                assert(rest[i] == s[i]);
            }
        }
    }
}

/// The items of a list are what stands between its commas, trimmed, without what
/// is empty then, in their order.
pub proof fn lemma_items_of_a_list(s: Seq<char>)
    ensures
        list_items(s) == pieces(s, ',').map_values(|piece: Seq<char>| trimmed(piece)).filter(
            |item: Seq<char>| item.len() > 0,
        ),
{
    lemma_items_are_picked(pieces(s, ','));
}

proof fn lemma_items_are_picked(parts: Seq<Seq<char>>)
    ensures
        items(parts) == parts.map_values(|piece: Seq<char>| trimmed(piece)).filter(
            |item: Seq<char>| item.len() > 0,
        ),
    decreases parts.len(),
{
    let trim_it = |piece: Seq<char>| trimmed(piece);
    let pick = |item: Seq<char>| item.len() > 0;
    reveal(Seq::filter);
    if parts.len() == 0 {
        assert(parts.map_values(trim_it).filter(pick) =~= Seq::<Seq<char>>::empty());
    } else {
        lemma_items_are_picked(parts.drop_last());
        assert(parts.map_values(trim_it).drop_last() =~= parts.drop_last().map_values(trim_it));
        assert(parts.map_values(trim_it).last() == trimmed(parts.last()));
    }
}

/// Every item of a list is there, holds no comma, and neither begins nor ends
/// with a blank.
pub proof fn lemma_items_are_clean(s: Seq<char>)
    ensures
        forall|i: int|
            #![trigger list_items(s)[i]]
            0 <= i < list_items(s).len() ==> {
                let item = list_items(s)[i];
                item.len() > 0 && !item.contains(',') && !blank(item[0]) && !blank(item.last())
            },
{
    lemma_pieces_make_the_text(s, ',');
    lemma_items_of_parts(pieces(s, ','));
}

proof fn lemma_items_of_parts(parts: Seq<Seq<char>>)
    requires
        forall|i: int| #![trigger parts[i]] 0 <= i < parts.len() ==> !parts[i].contains(','),
    ensures
        forall|i: int|
            #![trigger items(parts)[i]]
            0 <= i < items(parts).len() ==> {
                let item = items(parts)[i];
                item.len() > 0 && !item.contains(',') && !blank(item[0]) && !blank(item.last())
            },
    decreases parts.len(),
{
    if parts.len() > 0 {
        let before = items(parts.drop_last());
        assert forall|i: int| #![trigger parts.drop_last()[i]]
            0 <= i < parts.drop_last().len() implies !parts.drop_last()[i].contains(',') by {
            assert(parts.drop_last()[i] == parts[i]);
        }
        lemma_items_of_parts(parts.drop_last());
        lemma_trimmed_is_within(parts.last());
        assert(!parts[parts.len() - 1].contains(','));
        let item = trimmed(parts.last());
        assert(!item.contains(','));
        assert forall|i: int| #![trigger items(parts)[i]] 0 <= i < items(parts).len() implies {
            let item = items(parts)[i];
            item.len() > 0 && !item.contains(',') && !blank(item[0]) && !blank(item.last())
        } by {
            if i < before.len() {
                assert(items(parts)[i] == before[i]);
            }
        }
    }
}

// ---- texts in texts ----------------------------------------------------

/// Whether a text stands somewhere in another one.
pub open spec fn occurs(part: Seq<char>, s: Seq<char>) -> bool {
    exists|at: int|
        0 <= at <= s.len() - part.len() && #[trigger] s.subrange(at, at + part.len()) == part
}

/// Whether two texts stand in another one, the second one behind the first.
pub open spec fn in_order(first: Seq<char>, second: Seq<char>, s: Seq<char>) -> bool {
    exists|at: int|
        0 <= at <= s.len() && occurs(first, #[trigger] s.take(at)) && occurs(second, s.skip(at))
}

/// What stands in a text still does where more is added behind it.
pub broadcast proof fn lemma_occurs_in_front(part: Seq<char>, s: Seq<char>, more: Seq<char>)
    ensures
        occurs(part, s) ==> #[trigger] occurs(part, s + more),
{
    if occurs(part, s) {
        let at = choose|at: int|
            0 <= at <= s.len() - part.len() && #[trigger] s.subrange(at, at + part.len()) == part;
        assert((s + more).subrange(at, at + part.len()) =~= part);
    }
}

/// What stands in a text still does where more is put before it.
pub broadcast proof fn lemma_occurs_behind(part: Seq<char>, before: Seq<char>, s: Seq<char>)
    ensures
        occurs(part, s) ==> #[trigger] occurs(part, before + s),
{
    if occurs(part, s) {
        let at = choose|at: int|
            0 <= at <= s.len() - part.len() && #[trigger] s.subrange(at, at + part.len()) == part;
        let moved: int = before.len() + at;
        assert((before + s).subrange(moved, moved + part.len()) =~= part);
    }
}

/// A text stands in itself.
pub proof fn lemma_occurs_in_itself(s: Seq<char>)
    ensures
        occurs(s, s),
{
    assert(s.subrange(0, 0int + s.len()) =~= s);
}

/// In whatever order three texts are put together, the whole is the same.
pub proof fn lemma_put_together(a: Seq<char>, b: Seq<char>, c: Seq<char>)
    ensures
        (a + b) + c == a + (b + c),
{
    assert((a + b) + c =~= a + (b + c));
}

/// Nothing put behind a text leaves it as it is.
pub proof fn lemma_nothing_added(s: Seq<char>)
    ensures
        s + Seq::<char>::empty() == s,
{
    assert(s + Seq::<char>::empty() =~= s);
}

/// Three texts put behind another one stand in the whole, one next to the
/// other.
pub proof fn lemma_three_occur(head: Seq<char>, a: Seq<char>, b: Seq<char>, c: Seq<char>)
    ensures
        occurs(a + b + c, head + a + b + c),
{
    let part = a + b + c;
    let all = head + a + b + c;
    let at: int = head.len() as int;
    assert(all =~= head + part);
    assert(all.subrange(at, at + part.len()) =~= part);
}

/// What stands in order still does where more is added behind it.
pub broadcast proof fn lemma_in_order_in_front(
    first: Seq<char>,
    second: Seq<char>,
    s: Seq<char>,
    more: Seq<char>,
)
    ensures
        in_order(first, second, s) ==> #[trigger] in_order(first, second, s + more),
{
    if in_order(first, second, s) {
        let at = choose|at: int|
            0 <= at <= s.len() && occurs(first, #[trigger] s.take(at)) && occurs(
                second,
                s.skip(at),
            );
        assert((s + more).take(at) =~= s.take(at));
        assert((s + more).skip(at) =~= s.skip(at) + more);
        lemma_occurs_in_front(second, s.skip(at), more);
    }
}

/// What stands in the first of two texts comes before what stands in the
/// second.
pub proof fn lemma_one_after_the_other(
    first: Seq<char>,
    second: Seq<char>,
    s: Seq<char>,
    t: Seq<char>,
)
    requires
        occurs(first, s),
        occurs(second, t),
    ensures
        in_order(first, second, s + t),
{
    let at: int = s.len() as int;
    assert((s + t).take(at) =~= s);
    assert((s + t).skip(at) =~= t);
}

/// How texts are joined: nothing comes of none, a single one stays as it is,
/// and each further one comes behind the separator.
pub proof fn lemma_joined(parts: Seq<Seq<char>>, separator: Seq<char>, more: Seq<char>)
    ensures
        joined(Seq::<Seq<char>>::empty(), separator) == Seq::<char>::empty(),
        joined(seq![more], separator) == more,
        parts.len() > 0 ==> joined(parts.push(more), separator) == joined(parts, separator)
            + separator + more,
{
    if parts.len() > 0 {
        assert(parts.push(more).drop_last() =~= parts);
    }
}

/// Each of the texts that are joined stands in the whole.
pub proof fn lemma_each_is_joined(parts: Seq<Seq<char>>, separator: Seq<char>, k: int)
    requires
        0 <= k < parts.len(),
    ensures
        occurs(parts[k], joined(parts, separator)),
    decreases parts.len(),
{
    if parts.len() == 1 {
        lemma_occurs_in_itself(parts[0]);
    } else {
        let front = joined(parts.drop_last(), separator);
        if k == parts.len() - 1 {
            lemma_occurs_in_itself(parts[k]);
            lemma_occurs_behind(parts[k], front + separator, parts[k]);
        } else {
            lemma_each_is_joined(parts.drop_last(), separator, k);
            lemma_occurs_in_front(parts[k], front, separator);
            lemma_occurs_in_front(parts[k], front + separator, parts.last());
        }
    }
}

// ---- quoting -----------------------------------------------------------

/// What `{:?}` prints for a text.
pub uninterp spec fn quoted(s: Seq<char>) -> Seq<char>;

/// `format!` with `{:?}`: the text in quotes, with Rust's escapes.
#[verifier::external_body]
pub(crate) fn quote(s: &str) -> (r: String)
    ensures
        r@ == quoted(s@),
{
    format!("{s:?}")
}

} // verus!
