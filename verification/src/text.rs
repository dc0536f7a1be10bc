//! Verified text helpers: separator splitting, unsigned decimal parsing and
//! formatting, and comma-separated line building.  The spec functions are the
//! reference meaning of each operation; the exec functions are proved to
//! match them character by character.

use vstd::prelude::*;

verus! {

/// The views of a vector of strings.
pub open spec fn views_of(v: Seq<String>) -> Seq<Seq<char>> {
    v.map_values(|t: String| t@)
}

/// The pieces of `s` between occurrences of `sep`.  Splitting the empty
/// string gives one empty piece, as `str::split` does.
pub open spec fn spec_split(s: Seq<char>, sep: char) -> Seq<Seq<char>>
    decreases s.len(),
{
    if s.len() == 0 {
        seq![Seq::<char>::empty()]
    } else {
        let init = spec_split(s.drop_last(), sep);
        if s.last() == sep {
            init.push(Seq::<char>::empty())
        } else {
            init.update(init.len() - 1, init.last().push(s.last()))
        }
    }
}

pub proof fn lemma_split_len(s: Seq<char>, sep: char)
    ensures
        spec_split(s, sep).len() >= 1,
    decreases s.len(),
{
    if s.len() > 0 {
        lemma_split_len(s.drop_last(), sep);
    }
}

pub(crate) fn new_string() -> (r: String)
    ensures
        r@ == Seq::<char>::empty(),
{
    let r = String::from_str("");
    proof {
        reveal_strlit("");
        assert(r@ =~= Seq::<char>::empty());
    }
    r
}

/// Split `s` at every occurrence of `sep`, as the splitting spec says.
pub fn split_chars(s: &str, sep: char) -> (r: Vec<String>)
    ensures
        views_of(r@) == spec_split(s@, sep),
{
    let n = s.unicode_len();
    let mut r: Vec<String> = Vec::new();
    let mut cur = new_string();
    let mut i: usize = 0;
    proof {
        assert(s@.take(0) =~= Seq::<char>::empty());
        assert(views_of(r@).push(cur@) =~= spec_split(s@.take(0), sep));
    }
    while i < n
        invariant
            i <= n,
            n == s@.len(),
            views_of(r@).push(cur@) =~= spec_split(s@.take(i as int), sep),
        decreases n - i,
    {
        let c = s.get_char(i);
        proof {
            assert(s@.take(i + 1).drop_last() =~= s@.take(i as int));
            assert(s@.take(i + 1).last() == s@[i as int]);
            lemma_split_len(s@.take(i as int), sep);
        }
        if c == sep {
            let done = cur;
            cur = new_string();
            r.push(done);
            proof {
                assert(views_of(r@).push(cur@) =~= spec_split(s@.take(i + 1), sep));
            }
        } else {
            let piece = s.substring_char(i, i + 1);
            proof {
                assert(piece@ =~= seq![s@[i as int]]);
            }
            let ghost prev = cur@;
            cur.append(piece);
            proof {
                assert(cur@ =~= prev.push(s@[i as int]));
                let whole = spec_split(s@.take(i as int), sep);
                assert(whole.update(whole.len() - 1, whole.last().push(s@[i as int])) =~= views_of(
                    r@,
                ).push(cur@));
            }
        }
        i += 1;
    }
    proof {
        assert(s@.take(n as int) =~= s@);
    }
    r.push(cur);
    proof {
        assert(views_of(r@) =~= spec_split(s@, sep));
    }
    r
}

/// One decimal digit character.
pub open spec fn is_digit(c: char) -> bool {
    '0' <= c && c <= '9'
}

pub open spec fn digit_val(c: char) -> int {
    c as int - '0' as int
}

pub open spec fn spec_dec_digit(d: int) -> char {
    seq!['0', '1', '2', '3', '4', '5', '6', '7', '8', '9'][d]
}

/// The numeric value of a string of decimal digits.
pub open spec fn spec_digits_val(s: Seq<char>) -> int
    decreases s.len(),
{
    if s.len() == 0 {
        0
    } else {
        spec_digits_val(s.drop_last()) * 10 + digit_val(s.last())
    }
}

/// The digits of a number, with no sign and no leading zeros except for 0.
pub open spec fn spec_dec(n: int) -> Seq<char>
    decreases n,
{
    if n < 10 {
        seq![spec_dec_digit(n)]
    } else {
        spec_dec(n / 10).push(spec_dec_digit(n % 10))
    }
}

/// The digits of a decimal text, once an optional leading `+` is removed.
/// `u32::from_str` accepts exactly such a text.
pub open spec fn digits_part(s: Seq<char>) -> Seq<char> {
    if s.len() > 0 && s[0] == '+' {
        s.skip(1)
    } else {
        s
    }
}

/// Whether `s` is a text `u32::from_str` accepts: an optional `+`, then one
/// or more digits, with a value that fits in a `u32`.
pub open spec fn is_u32_text(s: Seq<char>) -> bool {
    let d = digits_part(s);
    &&& d.len() > 0
    &&& forall|i: int| 0 <= i < d.len() ==> is_digit(d[i])
    &&& spec_digits_val(d) <= u32::MAX
}

pub proof fn lemma_digits_val_nonneg(s: Seq<char>)
    requires
        forall|i: int| 0 <= i < s.len() ==> is_digit(s[i]),
    ensures
        spec_digits_val(s) >= 0,
    decreases s.len(),
{
    if s.len() > 0 {
        lemma_digits_val_nonneg(s.drop_last());
    }
}

pub proof fn lemma_digits_prefix_bound(s: Seq<char>, j: int)
    requires
        forall|i: int| 0 <= i < s.len() ==> is_digit(s[i]),
        0 <= j <= s.len(),
    ensures
        spec_digits_val(s.take(j)) <= spec_digits_val(s),
    decreases s.len(),
{
    if j == s.len() {
        assert(s.take(j) =~= s);
    } else {
        assert(s.take(j) =~= s.drop_last().take(j));
        lemma_digits_prefix_bound(s.drop_last(), j);
        lemma_digits_val_nonneg(s.drop_last());
    }
}

/// Parse a decimal `u32`, accepting exactly the texts the parsing spec
/// accepts and returning exactly the value the digits give.
pub fn try_parse_u32(s: &str) -> (r: Option<u32>)
    ensures
        r is Some <==> is_u32_text(s@),
        r is Some ==> r->0 as int == spec_digits_val(digits_part(s@)),
{
    let n = s.unicode_len();
    let start: usize = if n > 0 && s.get_char(0) == '+' {
        1
    } else {
        0
    };
    let ghost d = digits_part(s@);
    proof {
        assert(d =~= s@.skip(start as int));
    }
    if n == start {
        return None;
    }
    let mut acc: u64 = 0;
    let mut i: usize = start;
    proof {
        assert(d.take(0) =~= Seq::<char>::empty());
    }
    while i < n
        invariant
            start <= i <= n,
            n == s@.len(),
            d == digits_part(s@),
            d == s@.skip(start as int),
            forall|k: int| 0 <= k < i - start ==> is_digit(d[k]),
            acc as int == spec_digits_val(d.take(i - start)),
            acc <= u32::MAX,
        decreases n - i,
    {
        let c = s.get_char(i);
        proof {
            assert(d[i - start] == s@[i as int]);
        }
        if !('0' <= c && c <= '9') {
            proof {
                assert(digits_part(s@) == d);
                assert(!is_digit(digits_part(s@)[i - start]));
                assert(0 <= i - start < digits_part(s@).len());
                assert(!is_u32_text(s@));
            }
            return None;
        }
        proof {
            assert(d.take(i - start + 1).drop_last() =~= d.take(i - start));
        }
        let digit: u64 = (c as u32 as u64) - 48;
        acc = acc * 10 + digit;
        if acc > 0xffff_ffff {
            proof {
                assert(digits_part(s@) == d);
                assert(acc as int == spec_digits_val(d.take(i - start + 1)));
                assert(forall|k: int| 0 <= k < i - start + 1 ==> is_digit(d[k]));
                lemma_digits_prefix_bound_partial(d, i - start + 1);
                assert(!((forall|k: int|
                    0 <= k < digits_part(s@).len() ==> is_digit(digits_part(s@)[k]))
                    && spec_digits_val(digits_part(s@)) <= u32::MAX));
                assert(!is_u32_text(s@));
            }
            return None;
        }
        i += 1;
    }
    proof {
        assert(d.take(n - start) =~= d);
    }
    Some(acc as u32)
}

/// A partial digit string that already exceeds `u32::MAX` shows the whole
/// text is rejected, whatever follows.
proof fn lemma_digits_prefix_bound_partial(s: Seq<char>, j: int)
    requires
        0 <= j <= s.len(),
        forall|i: int| 0 <= i < j ==> is_digit(s[i]),
        spec_digits_val(s.take(j)) > u32::MAX,
    ensures
        !((forall|i: int| 0 <= i < s.len() ==> is_digit(s[i])) && spec_digits_val(s) <= u32::MAX),
{
    if (forall|i: int| 0 <= i < s.len() ==> is_digit(s[i])) {
        lemma_digits_prefix_bound(s, j);
    }
}

fn digit_str(d: u64) -> (r: &'static str)
    requires
        d < 10,
    ensures
        r@ == seq![spec_dec_digit(d as int)],
{
    let r: &'static str = match d {
        0 => "0",
        1 => "1",
        2 => "2",
        3 => "3",
        4 => "4",
        5 => "5",
        6 => "6",
        7 => "7",
        8 => "8",
        _ => "9",
    };
    proof {
        reveal_strlit("0");
        reveal_strlit("1");
        reveal_strlit("2");
        reveal_strlit("3");
        reveal_strlit("4");
        reveal_strlit("5");
        reveal_strlit("6");
        reveal_strlit("7");
        reveal_strlit("8");
        reveal_strlit("9");
        assert(r@ =~= seq![spec_dec_digit(d as int)]);
    }
    r
}

/// Format `n` in decimal, matching the decimal spec exactly.
pub fn u64_to_string(n: u64) -> (s: String)
    ensures
        s@ == spec_dec(n as int),
    decreases n,
{
    if n < 10 {
        let mut s = new_string();
        s.append(digit_str(n));
        proof {
            assert(s@ =~= spec_dec(n as int));
        }
        s
    } else {
        let mut s = u64_to_string(n / 10);
        s.append(digit_str(n % 10));
        proof {
            assert(s@ =~= spec_dec(n as int));
        }
        s
    }
}

/// The text of one comma-separated row, newline included.
pub open spec fn spec_fields_text(fields: Seq<Seq<char>>) -> Seq<char>
    decreases fields.len(),
{
    if fields.len() == 0 {
        Seq::<char>::empty()
    } else if fields.len() == 1 {
        fields[0]
    } else {
        spec_fields_text(fields.drop_last()) + seq![','] + fields.last()
    }
}

pub open spec fn spec_csv_line(fields: Seq<Seq<char>>) -> Seq<char> {
    spec_fields_text(fields) + seq!['\n']
}

/// Join the items with commas and end the line, as the row spec says.
pub fn csv_line(items: &Vec<String>) -> (r: String)
    requires
        items@.len() >= 1,
    ensures
        r@ == spec_csv_line(views_of(items@)),
{
    let mut r = new_string();
    r.append(items[0].as_str());
    let mut i: usize = 1;
    proof {
        assert(views_of(items@).take(1).len() == 1);
        assert(r@ =~= spec_fields_text(views_of(items@).take(1)));
    }
    while i < items.len()
        invariant
            1 <= i <= items@.len(),
            r@ =~= spec_fields_text(views_of(items@).take(i as int)),
        decreases items@.len() - i,
    {
        let comma: &'static str = ",";
        r.append(comma);
        r.append(items[i].as_str());
        proof {
            reveal_strlit(",");
            assert(views_of(items@).take(i + 1).drop_last() =~= views_of(items@).take(i as int));
            assert(r@ =~= spec_fields_text(views_of(items@).take(i + 1)));
        }
        i += 1;
    }
    let newline: &'static str = "\n";
    r.append(newline);
    proof {
        reveal_strlit("\n");
        assert(views_of(items@).take(items@.len() as int) =~= views_of(items@));
        assert(r@ =~= spec_csv_line(views_of(items@)));
    }
    r
}

} // verus!
