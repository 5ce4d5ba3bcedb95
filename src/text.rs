use vstd::prelude::*;
use vstd::string::*;

verus! {

/// The character that stands for a digit below sixteen (lower-case hexadecimal).
pub open spec fn digit_char(d: nat) -> char {
    if d < 10 {
        (('0' as u8) + d) as char
    } else {
        (('a' as u8) + (d - 10)) as char
    }
}

/// Positional notation of `n` in `base`, most significant digit first, no leading zeros.
pub open spec fn digits(n: nat, base: nat) -> Seq<char>
    decreases n,
{
    if (base != 10 && base != 16) || n < base {
        seq![digit_char(n % 16)]
    } else if base == 10 {
        digits(n / 10, base).push(digit_char(n % 10))
    } else {
        digits(n / 16, base).push(digit_char(n % 16))
    }
}

/// The items joined with `sep` between each two of them.
pub open spec fn join(items: Seq<Seq<char>>, sep: Seq<char>) -> Seq<char>
    decreases items.len(),
{
    if items.len() == 0 {
        Seq::empty()
    } else if items.len() == 1 {
        items[0]
    } else {
        join(items.drop_last(), sep) + sep + items.last()
    }
}

/// The text views of a list of strings.
pub open spec fn views(items: Seq<String>) -> Seq<Seq<char>> {
    items.map_values(|s: String| s@)
}

/// Appends the notation of `n` in `base` (ten or sixteen).
pub fn push_digits(out: &mut String, n: u32, base: u32)
    requires
        base == 10 || base == 16,
    ensures
        final(out)@ == old(out)@ + digits(n as nat, base as nat),
    decreases n,
{
    if n >= base {
        push_digits(out, n / base, base);
    }
    let d = (n % base) as usize;
    proof {
        reveal_strlit("0123456789abcdef");
    }
    let piece = "0123456789abcdef".substring_char(d, d + 1);
    assert(piece@ =~= seq![digit_char(d as nat)]) by {
        reveal_strlit("0123456789abcdef");
    }
    out.append(piece);
    assert(final(out)@ =~= old(out)@ + digits(n as nat, base as nat));
}

/// Whether two texts hold the same characters.
pub fn text_eq(a: &str, b: &str) -> (r: bool)
    ensures
        r == (a@ == b@),
{
    let n = a.unicode_len();
    if n != b.unicode_len() {
        return false;
    }
    let mut i: usize = 0;
    while i < n
        invariant
            n == a@.len(),
            n == b@.len(),
            i <= n,
            a@.subrange(0, i as int) == b@.subrange(0, i as int),
        decreases n - i,
    {
        if a.get_char(i) != b.get_char(i) {
            return false;
        }
        assert(a@.subrange(0, i + 1) =~= a@.subrange(0, i as int).push(a@[i as int]));
        assert(b@.subrange(0, i + 1) =~= b@.subrange(0, i as int).push(b@[i as int]));
        i = i + 1;
    }
    assert(a@ =~= a@.subrange(0, n as int));
    assert(b@ =~= b@.subrange(0, n as int));
    true
}

/// Appends the strings joined with `sep`.
pub fn push_joined(out: &mut String, items: &Vec<String>, sep: &str)
    ensures
        final(out)@ == old(out)@ + join(views(items@), sep@),
{
    let ghost start = out@;
    let mut i: usize = 0;
    while i < items.len()
        invariant
            i <= items@.len(),
            out@ == start + join(views(items@.subrange(0, i as int)), sep@),
        decreases items@.len() - i,
    {
        let ghost before = views(items@.subrange(0, i as int));
        if i > 0 {
            out.append(sep);
        }
        out.append(items[i].as_str());
        proof {
            let after = views(items@.subrange(0, i + 1));
            assert(after.drop_last() =~= before);
            assert(after.last() == items@[i as int]@);
            if i == 0 {
                assert(after =~= seq![items@[0]@]);
            }
        }
        i = i + 1;
    }
    assert(items@.subrange(0, i as int) =~= items@);
}

/// Ordinal order of texts: `a` comes before `b` at their first differing
/// character, or when it is a proper prefix of `b`.
pub open spec fn text_lt(a: Seq<char>, b: Seq<char>) -> bool {
    exists|k: int|
        #![trigger a.take(k), b.take(k)]
        0 <= k <= a.len() && k <= b.len() && a.take(k) == b.take(k) && ((k == a.len() && k
            < b.len()) || (k < a.len() && k < b.len() && a[k] < b[k]))
}

/// Whether `a` comes strictly before `b` in ordinal order.
pub fn text_less(a: &str, b: &str) -> (r: bool)
    ensures
        r == text_lt(a@, b@),
{
    let n = a.unicode_len();
    let m = b.unicode_len();
    let mut i: usize = 0;
    while i < n && i < m
        invariant
            n == a@.len(),
            m == b@.len(),
            i <= n,
            i <= m,
            a@.take(i as int) == b@.take(i as int),
        decreases n - i,
    {
        let x = a.get_char(i);
        let y = b.get_char(i);
        if x != y {
            if x < y {
                assert(a@.take(i as int) == b@.take(i as int));
                return true;
            } else {
                assert forall|k: int|
                    0 <= k <= a@.len() && k <= b@.len() && a@.take(k) == b@.take(k) implies !((k
                        == a@.len() && k < b@.len()) || (k < a@.len() && k < b@.len() && a@[k]
                        < b@[k])) by {
                    if k < i {
                        assert(a@.take(i as int)[k] == b@.take(i as int)[k]);
                    } else if k > i {
                        assert(a@.take(k)[i as int] == b@.take(k)[i as int]);
                    }
                }
                return false;
            }
        }
        assert(a@.take(i + 1) =~= a@.take(i as int).push(x));
        assert(b@.take(i + 1) =~= b@.take(i as int).push(y));
        i = i + 1;
    }
    if i == n && i < m {
        return true;
    }
    assert forall|k: int|
        0 <= k <= a@.len() && k <= b@.len() && a@.take(k) == b@.take(k) implies !((k == a@.len()
            && k < b@.len()) || (k < a@.len() && k < b@.len() && a@[k] < b@[k])) by {
        if k < i {
            assert(a@.take(i as int)[k] == b@.take(i as int)[k]);
        }
    }
    false
}

/// `i` is the last position of `c` in `text`.
pub open spec fn is_last_index(text: Seq<char>, c: char, i: int) -> bool {
    &&& 0 <= i < text.len()
    &&& text[i] == c
    &&& forall|j: int| i < j < text.len() ==> text[j] != c
}

/// The pieces of `text` between occurrences of `sep`; a text without `sep` is
/// one piece.
pub open spec fn split(text: Seq<char>, sep: char) -> Seq<Seq<char>>
    decreases text.len(),
{
    if exists|i: int| is_last_index(text, sep, i) {
        let i = choose|i: int| is_last_index(text, sep, i);
        split(text.take(i), sep).push(text.skip(i + 1))
    } else {
        seq![text]
    }
}

/// What follows `prefix` in `line`, if the line starts with it.
pub open spec fn strip_prefix(line: Seq<char>, prefix: Seq<char>) -> Option<Seq<char>> {
    if prefix.len() <= line.len() && line.take(prefix.len() as int) == prefix {
        Some(line.skip(prefix.len() as int))
    } else {
        None
    }
}

/// Removing a prefix gives back what followed it.
pub proof fn lemma_strip_prefix(prefix: Seq<char>, rest: Seq<char>)
    ensures
        strip_prefix(prefix + rest, prefix) == Some(rest),
{
    assert((prefix + rest).take(prefix.len() as int) =~= prefix);
    assert((prefix + rest).skip(prefix.len() as int) =~= rest);
}

/// Joining pieces that hold neither `c` nor a separator equal to `c` gives a
/// text without `c`.
pub proof fn lemma_join_avoids(items: Seq<Seq<char>>, sep: char, c: char)
    requires
        sep != c,
        forall|k: int| 0 <= k < items.len() ==> !items[k].contains(c),
    ensures
        !join(items, seq![sep]).contains(c),
    decreases items.len(),
{
    if items.len() > 1 {
        lemma_join_avoids(items.drop_last(), sep, c);
        let head = join(items.drop_last(), seq![sep]);
        let whole = head + seq![sep] + items.last();
        assert forall|j: int| 0 <= j < whole.len() implies whole[j] != c by {
            if j < head.len() {
                assert(whole[j] == head[j]);
            } else if j > head.len() {
                assert(whole[j] == items.last()[j - head.len() - 1]);
            }
        }
    }
}

/// Splitting the joined pieces gives the pieces back, when there is at least
/// one and none holds the separator.
pub proof fn lemma_split_join(items: Seq<Seq<char>>, sep: char)
    requires
        items.len() > 0,
        forall|k: int| 0 <= k < items.len() ==> !items[k].contains(sep),
    ensures
        split(join(items, seq![sep]), sep) == items,
    decreases items.len(),
{
    if items.len() == 1 {
        let t = items[0];
        assert(!(exists|i: int| is_last_index(t, sep, i)));
        assert(seq![t] =~= items);
    } else {
        let head = join(items.drop_last(), seq![sep]);
        let last = items.last();
        let whole = head + seq![sep] + last;
        let p = head.len() as int;
        assert(is_last_index(whole, sep, p)) by {
            assert forall|j: int| p < j < whole.len() implies whole[j] != sep by {
                assert(whole[j] == last[j - p - 1]);
            }
        }
        let i = choose|i: int| is_last_index(whole, sep, i);
        assert(i == p) by {
            if i > p {
                assert(whole[i] == last[i - p - 1]);
            } else if i < p {
                assert(whole[p] == sep);
            }
        }
        assert(whole.take(p) =~= head);
        assert(whole.skip(p + 1) =~= last);
        lemma_split_join(items.drop_last(), sep);
        assert(split(head, sep).push(last) =~= items);
    }
}

/// No text comes before itself.
pub proof fn lemma_text_lt_irreflexive(a: Seq<char>)
    ensures
        !text_lt(a, a),
{
}

/// Ordinal order is transitive.
pub proof fn lemma_text_lt_transitive(a: Seq<char>, b: Seq<char>, c: Seq<char>)
    requires
        text_lt(a, b),
        text_lt(b, c),
    ensures
        text_lt(a, c),
{
    let k1 = choose|k: int|
        #![trigger a.take(k), b.take(k)]
        0 <= k <= a.len() && k <= b.len() && a.take(k) == b.take(k) && ((k == a.len() && k
            < b.len()) || (k < a.len() && k < b.len() && a[k] < b[k]));
    let k2 = choose|k: int|
        #![trigger b.take(k), c.take(k)]
        0 <= k <= b.len() && k <= c.len() && b.take(k) == c.take(k) && ((k == b.len() && k
            < c.len()) || (k < b.len() && k < c.len() && b[k] < c[k]));
    if k1 < k2 {
        assert(c.take(k1) =~= c.take(k2).take(k1));
        assert(b.take(k1) =~= b.take(k2).take(k1));
        if k1 < a.len() {
            assert(b.take(k2)[k1] == c.take(k2)[k1]);
        }
        assert(a.take(k1) == c.take(k1));
    } else if k1 > k2 {
        assert(a.take(k2) =~= a.take(k1).take(k2));
        assert(b.take(k2) =~= b.take(k1).take(k2));
        assert(a.take(k1)[k2] == b.take(k1)[k2]);
        assert(a.take(k2) == c.take(k2));
    } else {
        assert(a.take(k1) == c.take(k1));
    }
}

} // verus!
