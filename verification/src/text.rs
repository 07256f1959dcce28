use vstd::prelude::*;

verus! {

/// The concatenation of a sequence of texts, in order.
pub open spec fn concat(parts: Seq<Seq<char>>) -> Seq<char>
    decreases parts.len(),
{
    if parts.len() == 0 {
        Seq::empty()
    } else {
        concat(parts.drop_last()) + parts.last()
    }
}

/// Appending a part appends its text.
pub proof fn lemma_concat_push(parts: Seq<Seq<char>>, part: Seq<char>)
    ensures
        concat(parts.push(part)) == concat(parts) + part,
{
    assert(parts.push(part).drop_last() =~= parts);
}

/// The concatenation of the first `k + 1` parts extends that of the first `k`.
pub proof fn lemma_concat_take_next(parts: Seq<Seq<char>>, k: int)
    requires
        0 <= k < parts.len(),
    ensures
        concat(parts.take(k + 1)) == concat(parts.take(k)) + parts[k],
{
    assert(parts.take(k + 1) =~= parts.take(k).push(parts[k]));
    lemma_concat_push(parts.take(k), parts[k]);
}

/// `count` space characters.
pub open spec fn spaces(count: nat) -> Seq<char> {
    Seq::new(count, |_i: int| ' ')
}

/// `text` followed by spaces up to `width` characters, as `format!("{:width$}", text)`
/// pads a string; a text already `width` long or longer is left as it is.
pub open spec fn pad_right(text: Seq<char>, width: nat) -> Seq<char> {
    if text.len() < width {
        text + spaces((width - text.len()) as nat)
    } else {
        text
    }
}

/// The index of the last occurrence of `c` in `s`, if any.
pub open spec fn last_index_of(s: Seq<char>, c: char) -> Option<int>
    decreases s.len(),
{
    if s.len() == 0 {
        None
    } else if s.last() == c {
        Some(s.len() - 1)
    } else {
        last_index_of(s.drop_last(), c)
    }
}

/// The index found is an occurrence of `c`, and none comes after it.
pub proof fn lemma_last_index_of(s: Seq<char>, c: char)
    ensures
        match last_index_of(s, c) {
            Some(i) => 0 <= i < s.len() && s[i] == c && forall|j: int| i < j < s.len() ==> s[j] != c,
            None => forall|j: int| 0 <= j < s.len() ==> s[j] != c,
        },
    decreases s.len(),
{
    if s.len() > 0 && s.last() != c {
        lemma_last_index_of(s.drop_last(), c);
        assert forall|j: int| 0 <= j < s.len() - 1 implies s[j] == s.drop_last()[j] by {}
    }
}

/// Lexicographic order of texts by character code, the order of `str`.
pub open spec fn lex_less(a: Seq<char>, b: Seq<char>) -> bool
    decreases a.len(),
{
    if a.len() == 0 {
        b.len() > 0
    } else if b.len() == 0 {
        false
    } else if a[0] != b[0] {
        (a[0] as int) < (b[0] as int)
    } else {
        lex_less(a.drop_first(), b.drop_first())
    }
}

/// No text comes before itself.
pub proof fn lemma_lex_irreflexive(a: Seq<char>)
    ensures
        !lex_less(a, a),
    decreases a.len(),
{
    if a.len() > 0 {
        lemma_lex_irreflexive(a.drop_first());
    }
}

/// The order is transitive.
pub proof fn lemma_lex_transitive(a: Seq<char>, b: Seq<char>, c: Seq<char>)
    requires
        lex_less(a, b),
        lex_less(b, c),
    ensures
        lex_less(a, c),
    decreases a.len(),
{
    if a.len() > 0 && b.len() > 0 && c.len() > 0 && a[0] == b[0] && b[0] == c[0] {
        lemma_lex_transitive(a.drop_first(), b.drop_first(), c.drop_first());
    }
}

/// Two different texts are ordered one way or the other.
pub proof fn lemma_lex_total(a: Seq<char>, b: Seq<char>)
    requires
        a != b,
    ensures
        lex_less(a, b) || lex_less(b, a),
    decreases a.len(),
{
    if a.len() > 0 && b.len() > 0 && a[0] == b[0] {
        if a.drop_first() == b.drop_first() {
            assert(a =~= seq![a[0]] + a.drop_first());
            assert(b =~= seq![b[0]] + b.drop_first());
            assert(false);
        } else {
            lemma_lex_total(a.drop_first(), b.drop_first());
        }
    } else if a.len() > 0 && b.len() > 0 {
    } else if a.len() == 0 && b.len() == 0 {
        assert(a =~= b);
    }
}

/// The index of the last `c` in `s`, as `str::rfind` finds it (counted in characters).
pub fn find_last(s: &str, c: char) -> (r: Option<usize>)
    ensures
        match r {
            Some(i) => last_index_of(s@, c) == Some(i as int),
            None => last_index_of(s@, c) is None,
        },
{
    let n = s.unicode_len();
    let mut i: usize = n;
    assert(s@.take(n as int) =~= s@);
    while i > 0
        invariant
            i <= n,
            n == s@.len(),
            last_index_of(s@, c) == last_index_of(s@.take(i as int), c),
        decreases i,
    {
        assert(s@.take(i as int).drop_last() =~= s@.take(i - 1));
        if s.get_char(i - 1) == c {
            return Some(i - 1);
        }
        i = i - 1;
    }
    None
}

/// Whether two texts are equal.
pub fn same_text(a: &str, b: &str) -> (r: bool)
    ensures
        r == (a@ == b@),
{
    let na = a.unicode_len();
    let nb = b.unicode_len();
    if na != nb {
        return false;
    }
    let mut i: usize = 0;
    while i < na
        invariant
            i <= na,
            na == a@.len(),
            nb == b@.len(),
            na == nb,
            a@.take(i as int) =~= b@.take(i as int),
        decreases na - i,
    {
        if a.get_char(i) != b.get_char(i) {
            return false;
        }
        assert(a@.take(i + 1) =~= a@.take(i as int).push(a@[i as int]));
        assert(b@.take(i + 1) =~= b@.take(i as int).push(b@[i as int]));
        i = i + 1;
    }
    assert(a@.take(na as int) =~= a@);
    assert(b@.take(nb as int) =~= b@);
    true
}

/// Whether `a` comes before `b` in the order of texts.
pub fn text_less(a: &str, b: &str) -> (r: bool)
    ensures
        r == lex_less(a@, b@),
{
    let na = a.unicode_len();
    let nb = b.unicode_len();
    let mut i: usize = 0;
    assert(a@.skip(0) =~= a@);
    assert(b@.skip(0) =~= b@);
    while i < na && i < nb
        invariant
            i <= na,
            i <= nb,
            na == a@.len(),
            nb == b@.len(),
            lex_less(a@, b@) == lex_less(a@.skip(i as int), b@.skip(i as int)),
        decreases na - i,
    {
        let ca = a.get_char(i);
        let cb = b.get_char(i);
        if ca != cb {
            return (ca as u32) < (cb as u32);
        }
        assert(a@.skip(i as int).drop_first() =~= a@.skip(i + 1));
        assert(b@.skip(i as int).drop_first() =~= b@.skip(i + 1));
        i = i + 1;
    }
    i < nb
}

/// Appends `text` and then spaces up to `width` characters in all.
pub fn push_padded(out: &mut String, text: &str, width: usize)
    ensures
        final(out)@ == old(out)@ + pad_right(text@, width as nat),
{
    out.append(text);
    let n = text.unicode_len();
    let mut k: usize = n;
    proof {
        reveal_strlit(" ");
    }
    assert(" "@ =~= seq![' ']);
    assert(old(out)@ + text@ + spaces(0) =~= old(out)@ + text@);
    while k < width
        invariant
            n == text@.len(),
            n <= k <= width || (n > width && k == n),
            " "@ == seq![' '],
            out@ == old(out)@ + text@ + spaces((k - n) as nat),
        decreases width - k,
    {
        let ghost before = out@;
        out.append(" ");
        assert(spaces((k - n) as nat).push(' ') =~= spaces((k + 1 - n) as nat));
        assert(out@ =~= old(out)@ + text@ + spaces((k + 1 - n) as nat));
        k = k + 1;
    }
    if n < width {
        assert(k == width);
    } else {
        assert(out@ =~= old(out)@ + text@);
    }
}

/// A padded text is the text followed by spaces alone, and is exactly `width`
/// characters long unless the text is longer.
pub proof fn lemma_pad_right(text: Seq<char>, width: nat)
    ensures
        pad_right(text, width).len() == if text.len() < width {
            width
        } else {
            text.len()
        },
        pad_right(text, width).take(text.len() as int) == text,
        forall|j: int|
            text.len() <= j < pad_right(text, width).len() ==> #[trigger] pad_right(text, width)[j]
                == ' ',
{
    assert(pad_right(text, width).take(text.len() as int) =~= text);
}

/// A proper prefix of a text comes before it, and otherwise two texts are ordered by
/// the first character in which they differ.
pub proof fn lemma_lex_order(a: Seq<char>, b: Seq<char>, k: int)
    ensures
        a.len() < b.len() && b.take(a.len() as int) == a ==> lex_less(a, b),
        0 <= k < a.len() && k < b.len() && a.take(k) == b.take(k) && a[k] != b[k] ==> (lex_less(a, b)
            <==> (a[k] as int) < (b[k] as int)),
    decreases a.len(),
{
    if a.len() > 0 && b.len() > 0 {
        if a.len() < b.len() && b.take(a.len() as int) == a {
            assert(b[0] == b.take(a.len() as int)[0]);
            assert(b.drop_first().take(a.drop_first().len() as int) =~= a.drop_first()) by {
                assert forall|j: int| 0 <= j < a.len() - 1 implies b.drop_first()[j] == a.drop_first()[j] by {
                    assert(b.take(a.len() as int)[j + 1] == b[j + 1]);
                }
            }
            lemma_lex_order(a.drop_first(), b.drop_first(), k - 1);
        }
        if 0 < k < a.len() && k < b.len() && a.take(k) == b.take(k) && a[k] != b[k] {
            assert(a[0] == a.take(k)[0] && b[0] == b.take(k)[0]);
            assert(a.drop_first().take(k - 1) =~= b.drop_first().take(k - 1)) by {
                assert forall|j: int| 0 <= j < k - 1 implies a.drop_first()[j] == b.drop_first()[j] by {
                    assert(a.take(k)[j + 1] == b.take(k)[j + 1]);
                }
            }
            lemma_lex_order(a.drop_first(), b.drop_first(), k - 1);
        }
    }
}

} // verus!
