//! Texts as sequences of characters: membership in lists, order-free comparison of
//! lists, splitting and joining on a separator, and decimal numerals.
//!
//! Node identifiers, message tags and payloads are all `String`s. Contracts speak of
//! them through their views, `Seq<char>`, and of lists of them through [`texts`].

use vstd::prelude::*;

verus! {

/// `String::push` appends one character at the end and changes nothing else.
pub assume_specification[ String::push ](s: &mut String, c: char)
    ensures
        final(s)@ == old(s)@.push(c),
;

/// The views of a list of strings, in order.
pub open spec fn texts(v: Seq<String>) -> Seq<Seq<char>> {
    v.map_values(|s: String| s@)
}

/// `i` is the position of the first occurrence of `item` in `v`.
pub open spec fn is_first_at(v: Seq<Seq<char>>, item: Seq<char>, i: int) -> bool {
    &&& 0 <= i < v.len()
    &&& v[i] == item
    &&& forall|j: int| 0 <= j < i ==> v[j] != item
}

/// The part of `v` before the first occurrence of `item`; all of `v` where it does
/// not occur.
pub open spec fn before_first(v: Seq<Seq<char>>, item: Seq<char>) -> Seq<Seq<char>> {
    if v.contains(item) {
        v.take(choose|i: int| is_first_at(v, item, i))
    } else {
        v
    }
}

/// The first occurrence is where the part before it ends.
pub proof fn lemma_before_first(v: Seq<Seq<char>>, item: Seq<char>, i: int)
    requires
        is_first_at(v, item, i),
    ensures
        v.contains(item),
        before_first(v, item) == v.take(i),
{
    let c = choose|c: int| is_first_at(v, item, c);
    assert(is_first_at(v, item, c));
    if c < i {
        assert(v[c] != item);
    }
    if i < c {
        assert(v[i] != item);
    }
}

/// An owned copy of a string slice.
pub fn text_of(s: &str) -> (r: String)
    ensures
        r@ == s@,
{
    s.to_owned()
}

/// Whether `item` occurs in `list`.
pub fn contains_text(list: &Vec<String>, item: &String) -> (found: bool)
    ensures
        found == texts(list@).contains(item@),
{
    let mut i: usize = 0;
    while i < list.len()
        invariant
            i <= list.len(),
            forall|j: int| 0 <= j < i ==> texts(list@)[j] != item@,
        decreases list.len() - i,
    {
        if list[i] == *item {
            assert(texts(list@)[i as int] == item@);
            return true;
        }
        i += 1;
    }
    false
}

/// The position of the first occurrence of `item` in `list`, if there is one.
pub fn position_of(list: &Vec<String>, item: &String) -> (at: Option<usize>)
    ensures
        at is None <==> !texts(list@).contains(item@),
        at matches Some(i) ==> is_first_at(texts(list@), item@, i as int),
{
    let mut i: usize = 0;
    while i < list.len()
        invariant
            i <= list.len(),
            forall|j: int| 0 <= j < i ==> texts(list@)[j] != item@,
        decreases list.len() - i,
    {
        if list[i] == *item {
            assert(texts(list@)[i as int] == item@);
            return Some(i);
        }
        i += 1;
    }
    None
}

/// Whether every item of `inner` occurs in `outer`.
pub fn all_contained(inner: &Vec<String>, outer: &Vec<String>) -> (r: bool)
    ensures
        r == texts(inner@).to_set().subset_of(texts(outer@).to_set()),
{
    let mut i: usize = 0;
    while i < inner.len()
        invariant
            i <= inner.len(),
            forall|j: int| 0 <= j < i ==> texts(outer@).contains(#[trigger] texts(inner@)[j]),
        decreases inner.len() - i,
    {
        if !contains_text(outer, &inner[i]) {
            assert(texts(inner@).to_set().contains(texts(inner@)[i as int]));
            return false;
        }
        i += 1;
    }
    true
}

/// Whether two lists hold the same items, whatever their order and however often
/// each occurs.
pub fn same_members(a: &Vec<String>, b: &Vec<String>) -> (r: bool)
    ensures
        r == (texts(a@).to_set() == texts(b@).to_set()),
{
    let forth = all_contained(a, b);
    let back = all_contained(b, a);
    proof {
        if forth && back {
            assert(texts(a@).to_set() =~= texts(b@).to_set());
        }
    }
    forth && back
}

/// Whether no item occurs twice in `list`.
pub fn all_distinct(list: &Vec<String>) -> (r: bool)
    ensures
        r == texts(list@).no_duplicates(),
{
    let mut i: usize = 0;
    while i < list.len()
        invariant
            i <= list.len(),
            forall|j: int, k: int|
                0 <= j < k < i ==> #[trigger] texts(list@)[j] != #[trigger] texts(list@)[k],
        decreases list.len() - i,
    {
        let mut j: usize = 0;
        while j < i
            invariant
                j <= i < list.len(),
                forall|k: int| 0 <= k < j ==> #[trigger] texts(list@)[k] != texts(list@)[i as int],
            decreases i - j,
        {
            if list[j] == list[i] {
                assert(texts(list@)[j as int] == texts(list@)[i as int]);
                return false;
            }
            j += 1;
        }
        i += 1;
    }
    true
}

/// The parts of `s` between occurrences of `sep`. A text without `sep` is one part,
/// the empty text included.
pub open spec fn split_parts(s: Seq<char>, sep: char) -> Seq<Seq<char>>
    decreases s.len(),
{
    if s.len() == 0 {
        seq![Seq::<char>::empty()]
    } else {
        let before = split_parts(s.drop_last(), sep);
        if s.last() == sep {
            before.push(Seq::<char>::empty())
        } else {
            before.drop_last().push(before.last().push(s.last()))
        }
    }
}

/// The parts with `sep` between each two neighbours.
pub open spec fn joined(parts: Seq<Seq<char>>, sep: char) -> Seq<char>
    decreases parts.len(),
{
    if parts.len() == 0 {
        Seq::<char>::empty()
    } else if parts.len() == 1 {
        parts[0]
    } else {
        joined(parts.drop_last(), sep).push(sep) + parts.last()
    }
}

/// Splitting yields at least one part.
pub proof fn lemma_split_nonempty(s: Seq<char>, sep: char)
    ensures
        split_parts(s, sep).len() >= 1,
    decreases s.len(),
{
    if s.len() > 0 {
        lemma_split_nonempty(s.drop_last(), sep);
    }
}

/// No part of a split text holds the separator.
pub proof fn lemma_split_parts_clean(s: Seq<char>, sep: char)
    ensures
        forall|i: int|
            0 <= i < split_parts(s, sep).len() ==> !(#[trigger] split_parts(s, sep)[i]).contains(
                sep,
            ),
    decreases s.len(),
{
    if s.len() > 0 {
        lemma_split_nonempty(s.drop_last(), sep);
        lemma_split_parts_clean(s.drop_last(), sep);
        let before = split_parts(s.drop_last(), sep);
        let after = split_parts(s, sep);
        assert forall|i: int| 0 <= i < after.len() implies !(#[trigger] after[i]).contains(sep) by {
            if i < before.len() - 1 {
                assert(after[i] == before[i]);
            } else if s.last() != sep && i == before.len() - 1 {
                assert(!before[i].contains(sep));
                assert(after[i] == before[i].push(s.last()));
                if after[i].contains(sep) {
                    let k = choose|k: int| 0 <= k < after[i].len() && after[i][k] == sep;
                    assert(before[i][k] == sep);
                }
            } else if s.last() == sep && i == before.len() - 1 {
                assert(after[i] == before[i]);
            }
        }
    }
}

/// Joining the parts of a split text gives the text back.
pub proof fn lemma_join_split(s: Seq<char>, sep: char)
    ensures
        joined(split_parts(s, sep), sep) == s,
    decreases s.len(),
{
    if s.len() > 0 {
        let t = s.drop_last();
        lemma_split_nonempty(t, sep);
        lemma_join_split(t, sep);
        let before = split_parts(t, sep);
        let after = split_parts(s, sep);
        if s.last() == sep {
            assert(after.drop_last() == before);
            assert(joined(after, sep) == joined(before, sep).push(sep) + Seq::<char>::empty());
            assert(joined(after, sep) == t.push(sep));
            assert(t.push(sep) == s);
        } else {
            let grown = before.last().push(s.last());
            assert(after.last() == grown);
            assert(after.drop_last() == before.drop_last());
            if before.len() == 1 {
                assert(before[0] == t);
                assert(after[0] == s);
            } else {
                let head = joined(before.drop_last(), sep).push(sep);
                assert(joined(before, sep) == head + before.last());
                assert(joined(after, sep) == head + grown);
                assert(head + grown == (head + before.last()).push(s.last()));
                assert(t.push(s.last()) == s);
            }
        }
    }
}

/// Appending a part to a list of parts appends the separator and the part to the
/// joined text.
pub proof fn lemma_join_push(parts: Seq<Seq<char>>, last: Seq<char>, sep: char)
    requires
        parts.len() >= 1,
    ensures
        joined(parts.push(last), sep) == joined(parts, sep).push(sep) + last,
{
    assert(parts.push(last).drop_last() == parts);
}

/// A text without the separator is a single part.
pub proof fn lemma_split_clean(x: Seq<char>, sep: char)
    requires
        !x.contains(sep),
    ensures
        split_parts(x, sep) == seq![x],
    decreases x.len(),
{
    if x.len() == 0 {
        assert(x == Seq::<char>::empty());
    } else {
        let t = x.drop_last();
        assert forall|i: int| 0 <= i < t.len() implies t[i] != sep by {
            assert(x[i] == t[i]);
        }
        assert(x.last() == x[x.len() - 1]);
        lemma_split_clean(t, sep);
        assert(seq![t].drop_last().push(t.push(x.last())) == seq![t.push(x.last())]);
        assert(t.push(x.last()) == x);
    }
}

/// A part without the separator that follows the separator is split off whole.
pub proof fn lemma_split_append(s: Seq<char>, x: Seq<char>, sep: char)
    requires
        !x.contains(sep),
    ensures
        split_parts(s.push(sep) + x, sep) == split_parts(s, sep).push(x),
    decreases x.len(),
{
    let whole = s.push(sep) + x;
    if x.len() == 0 {
        assert(whole == s.push(sep));
        assert(whole.drop_last() == s);
        assert(x == Seq::<char>::empty());
    } else {
        let t = x.drop_last();
        assert forall|i: int| 0 <= i < t.len() implies t[i] != sep by {
            assert(x[i] == t[i]);
        }
        assert(x.last() == x[x.len() - 1]);
        lemma_split_append(s, t, sep);
        assert(whole.drop_last() == s.push(sep) + t);
        assert(whole.last() == x.last());
        let before = split_parts(s, sep).push(t);
        assert(before.drop_last() == split_parts(s, sep));
        assert(t.push(x.last()) == x);
    }
}

/// Splitting the joined text of parts that hold no separator gives the parts
/// back.
pub proof fn lemma_split_join(parts: Seq<Seq<char>>, sep: char)
    requires
        parts.len() >= 1,
        forall|i: int| 0 <= i < parts.len() ==> !(#[trigger] parts[i]).contains(sep),
    ensures
        split_parts(joined(parts, sep), sep) == parts,
    decreases parts.len(),
{
    if parts.len() == 1 {
        lemma_split_clean(parts[0], sep);
        assert(parts == seq![parts[0]]);
    } else {
        let head = parts.drop_last();
        assert forall|i: int| 0 <= i < head.len() implies !(#[trigger] head[i]).contains(sep) by {
            assert(head[i] == parts[i]);
        }
        lemma_split_join(head, sep);
        lemma_split_append(joined(head, sep), parts.last(), sep);
        assert(head.push(parts.last()) == parts);
    }
}

/// The parts of `s` between occurrences of `sep`, as owned strings.
pub fn split_text(s: &str, sep: char) -> (parts: Vec<String>)
    ensures
        texts(parts@) == split_parts(s@, sep),
        parts.len() >= 1,
{
    broadcast use vstd::string::group_string_axioms;

    let mut done: Vec<String> = Vec::new();
    let mut current = String::new();
    assert(s@.take(0) == Seq::<char>::empty());
    assert(texts(done@).push(current@) == seq![Seq::<char>::empty()]);
    for c in it: s.chars()
        invariant
            it.seq() == s@,
            texts(done@).push(current@) == split_parts(s@.take(it.index() as int), sep),
    {
        let ghost seen = s@.take(it.index() as int);
        let ghost next = s@.take(it.index() + 1);
        assert(next.drop_last() == seen);
        assert(next.last() == c);
        let ghost before = texts(done@).push(current@);
        if c == sep {
            done.push(current);
            current = String::new();
            assert(texts(done@) == before);
        } else {
            current.push(c);
            assert(texts(done@) == before.drop_last());
        }
    }
    assert(s@.take(s@.len() as int) == s@);
    let ghost head = texts(done@);
    done.push(current);
    assert(texts(done@) == head.push(current@));
    done
}

/// The items of `parts` with `sep` between each two neighbours.
pub fn join_texts(parts: &Vec<String>, sep: char) -> (r: String)
    ensures
        r@ == joined(texts(parts@), sep),
{
    let mut out = String::new();
    let mut i: usize = 0;
    assert(texts(parts@).take(0) == Seq::<Seq<char>>::empty());
    while i < parts.len()
        invariant
            i <= parts.len(),
            out@ == joined(texts(parts@).take(i as int), sep),
        decreases parts.len() - i,
    {
        let ghost seen = texts(parts@).take(i as int);
        let ghost next = texts(parts@).take(i + 1);
        assert(next.drop_last() == seen);
        assert(next.last() == parts[i as int]@);
        if i > 0 {
            out.push(sep);
        }
        out.append(parts[i].as_str());
        i += 1;
    }
    assert(texts(parts@).take(parts.len() as int) == texts(parts@));
    out
}

/// The ten decimal digits.
pub open spec fn digit_chars() -> Seq<char> {
    seq!['0', '1', '2', '3', '4', '5', '6', '7', '8', '9']
}

/// The decimal numeral of `n`, without leading zeros.
pub open spec fn decimal(n: nat) -> Seq<char>
    decreases n,
{
    if n < 10 {
        seq![digit_chars()[n as int]]
    } else {
        decimal(n / 10).push(digit_chars()[(n % 10) as int])
    }
}

/// A numeral has one digit exactly when the number is below ten.
pub proof fn lemma_decimal_len(n: nat)
    ensures
        decimal(n).len() >= 1,
        decimal(n).len() == 1 <==> n < 10,
    decreases n,
{
    if n >= 10 {
        lemma_decimal_len(n / 10);
    }
}

/// Different digits have different characters.
pub proof fn lemma_digits_distinct(a: nat, b: nat)
    requires
        a < 10,
        b < 10,
        digit_chars()[a as int] == digit_chars()[b as int],
    ensures
        a == b,
{
    let d = digit_chars();
    assert(d[0] == '0' && d[1] == '1' && d[2] == '2' && d[3] == '3' && d[4] == '4');
    assert(d[5] == '5' && d[6] == '6' && d[7] == '7' && d[8] == '8' && d[9] == '9');
}

/// Different numbers have different numerals.
pub proof fn lemma_decimal_injective(a: nat, b: nat)
    requires
        decimal(a) == decimal(b),
    ensures
        a == b,
    decreases a,
{
    lemma_decimal_len(a);
    lemma_decimal_len(b);
    if a < 10 {
        assert(decimal(a) == seq![digit_chars()[a as int]]);
        assert(decimal(b) == seq![digit_chars()[b as int]]);
        assert(decimal(a)[0] == digit_chars()[a as int]);
        assert(decimal(b)[0] == digit_chars()[b as int]);
        lemma_digits_distinct(a, b);
    } else {
        let da = decimal(a / 10);
        let db = decimal(b / 10);
        let la = digit_chars()[(a % 10) as int];
        let lb = digit_chars()[(b % 10) as int];
        assert(da.push(la).drop_last() == da);
        assert(db.push(lb).drop_last() == db);
        assert(da.push(la).last() == la);
        assert(db.push(lb).last() == lb);
        lemma_decimal_injective(a / 10, b / 10);
        lemma_digits_distinct(a % 10, b % 10);
    }
}

fn push_decimal(out: &mut String, n: u32)
    ensures
        final(out)@ == old(out)@ + decimal(n as nat),
    decreases n,
{
    let digits: [char; 10] = ['0', '1', '2', '3', '4', '5', '6', '7', '8', '9'];
    assert(digits@ == digit_chars());
    if n >= 10 {
        push_decimal(out, n / 10);
    }
    let ghost mid = out@;
    out.push(digits[(n % 10) as usize]);
    proof {
        let d = digit_chars()[(n % 10) as int];
        if n >= 10 {
            assert(mid.push(d) == old(out)@ + decimal((n / 10) as nat).push(d));
        } else {
            assert(mid.push(d) == old(out)@ + seq![d]);
        }
    }
}

/// The decimal numeral of `n`.
pub fn decimal_text(n: u32) -> (r: String)
    ensures
        r@ == decimal(n as nat),
{
    let mut out = String::new();
    push_decimal(&mut out, n);
    assert(Seq::<char>::empty() + decimal(n as nat) == decimal(n as nat));
    out
}

/// The upper-case form of an ASCII character: letters `a` to `z` become `A` to
/// `Z`, every other character stays.
pub open spec fn upper(c: char) -> char {
    if 'a' <= c && c <= 'z' {
        ((c as u8 - 32) as u8) as char
    } else {
        c
    }
}

/// Every character of the text is an ASCII character.
pub open spec fn is_ascii_text(s: Seq<char>) -> bool {
    forall|i: int| 0 <= i < s.len() ==> '\0' <= #[trigger] s[i] <= '\u{7f}'
}

/// `str::to_uppercase` on an ASCII text: the text with each letter in upper case.
/// On other texts the result may differ in length, which `requires` leaves out.
#[verifier::external_body]
pub(crate) fn uppercase(s: &str) -> (r: String)
    requires
        is_ascii_text(s@),
    ensures
        r@ == s@.map_values(|c: char| upper(c)),
{
    s.to_uppercase()
}

} // verus!
