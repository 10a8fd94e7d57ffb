//! Character-level text helpers shared by the template and method
//! parsers: splitting on a separator, trimming, and slice equality.

use vstd::prelude::*;

verus! {

/// Splits a character sequence on the separator `sep`.  The result always
/// holds one more piece than the sequence holds separators; empty pieces
/// are kept.
pub open spec fn split_char(s: Seq<char>, sep: char) -> Seq<Seq<char>>
    decreases s.len(),
{
    if s.len() == 0 {
        seq![Seq::<char>::empty()]
    } else if s[0] == sep {
        seq![Seq::<char>::empty()] + split_char(s.drop_first(), sep)
    } else {
        let rest = split_char(s.drop_first(), sep);
        seq![seq![s[0]] + rest[0]] + rest.drop_first()
    }
}

pub proof fn lemma_split_char_len(s: Seq<char>, sep: char)
    ensures
        split_char(s, sep).len() >= 1,
    decreases s.len(),
{
    if s.len() != 0 {
        lemma_split_char_len(s.drop_first(), sep);
    }
}

/// How one more character extends the split: a separator opens a new
/// empty piece, any other character extends the final piece.
pub proof fn lemma_split_char_push(s: Seq<char>, sep: char, c: char)
    ensures
        c == sep ==> split_char(s.push(c), sep) == split_char(s, sep).push(
            Seq::<char>::empty(),
        ),
        c != sep ==> split_char(s.push(c), sep) == split_char(s, sep).update(
            split_char(s, sep).len() - 1,
            split_char(s, sep).last().push(c),
        ),
    decreases s.len(),
{
    lemma_split_char_len(s, sep);
    if s.len() == 0 {
        assert(s.push(c)[0] == c);
        assert(s.push(c).drop_first() =~~= Seq::<char>::empty());
        assert(split_char(Seq::<char>::empty(), sep) =~~= seq![Seq::<char>::empty()]);
        if c == sep {
            assert(split_char(s.push(c), sep) =~~= split_char(s, sep).push(
                Seq::<char>::empty(),
            ));
        } else {
            assert(seq![s.push(c)[0]] + split_char(s.push(c).drop_first(), sep)[0]
                =~~= seq![c]);
            assert(split_char(s.push(c), sep) =~~= split_char(s, sep).update(
                0,
                split_char(s, sep).last().push(c),
            ));
        }
    } else {
        assert(s.push(c).drop_first() =~~= s.drop_first().push(c));
        lemma_split_char_push(s.drop_first(), sep, c);
        lemma_split_char_len(s.drop_first(), sep);
        let rest = split_char(s.drop_first(), sep);
        if s[0] == sep {
            if c == sep {
                assert(split_char(s.push(c), sep) =~~= split_char(s, sep).push(
                    Seq::<char>::empty(),
                ));
            } else {
                assert(split_char(s.push(c), sep) =~~= split_char(s, sep).update(
                    split_char(s, sep).len() - 1,
                    split_char(s, sep).last().push(c),
                ));
            }
        } else {
            if c == sep {
                assert(rest.push(Seq::<char>::empty()).drop_first() =~~= rest.drop_first()
                    .push(Seq::<char>::empty()));
                assert(split_char(s.push(c), sep) =~~= split_char(s, sep).push(
                    Seq::<char>::empty(),
                ));
            } else {
                if rest.len() == 1 {
                    assert(split_char(s.push(c), sep) =~~= split_char(s, sep).update(
                        split_char(s, sep).len() - 1,
                        split_char(s, sep).last().push(c),
                    ));
                } else {
                    assert(rest.update(rest.len() - 1, rest.last().push(c)).drop_first()
                        =~~= rest.drop_first().update(rest.len() - 2, rest.last().push(c)));
                    assert(split_char(s.push(c), sep) =~~= split_char(s, sep).update(
                        split_char(s, sep).len() - 1,
                        split_char(s, sep).last().push(c),
                    ));
                }
            }
        }
    }
}

/// Concatenating two pieces of text around a separator splits into the
/// two pieces' own splits.
pub proof fn lemma_split_char_concat(x: Seq<char>, z: Seq<char>, sep: char)
    ensures
        split_char(x + seq![sep] + z, sep) == split_char(x, sep) + split_char(z, sep),
    decreases x.len(),
{
    if x.len() == 0 {
        assert(x + seq![sep] + z =~~= seq![sep] + z);
        assert((seq![sep] + z).drop_first() =~~= z);
        assert(split_char(x + seq![sep] + z, sep) =~~= split_char(x, sep) + split_char(
            z,
            sep,
        ));
    } else {
        lemma_split_char_concat(x.drop_first(), z, sep);
        lemma_split_char_len(x.drop_first(), sep);
        lemma_split_char_len(z, sep);
        let w = x + seq![sep] + z;
        assert(w[0] == x[0]);
        assert(w.drop_first() =~~= x.drop_first() + seq![sep] + z);
        if x[0] == sep {
            assert(split_char(w, sep) =~~= split_char(x, sep) + split_char(z, sep));
        } else {
            let rest = split_char(x.drop_first(), sep);
            assert((rest + split_char(z, sep)).drop_first() =~~= rest.drop_first()
                + split_char(z, sep));
            assert(split_char(w, sep) =~~= split_char(x, sep) + split_char(z, sep));
        }
    }
}

/// The final piece of a split is empty exactly when the text is empty or
/// ends with the separator.
pub proof fn lemma_split_char_last(s: Seq<char>, sep: char)
    ensures
        split_char(s, sep).last().len() == 0 <==> (s.len() == 0 || s.last() == sep),
    decreases s.len(),
{
    lemma_split_char_len(s, sep);
    if s.len() > 0 {
        lemma_split_char_push(s.drop_last(), sep, s.last());
        lemma_split_char_len(s.drop_last(), sep);
        lemma_split_char_last(s.drop_last(), sep);
        assert(s.drop_last().push(s.last()) =~~= s);
    }
}

/// Splits the characters of `s` between positions `from` and `to` on the
/// separator, producing the same pieces as [`split_char`] on that range.
pub(crate) fn split_range(s: &str, from: usize, to: usize, sep: char) -> (r: Vec<String>)
    requires
        from <= to <= s@.len(),
    ensures
        r.deep_view() == split_char(s@.subrange(from as int, to as int), sep),
{
    let mut pieces: Vec<String> = Vec::new();
    let mut start: usize = from;
    let mut i: usize = from;
    proof {
        assert(s@.subrange(from as int, from as int) =~~= Seq::<char>::empty());
        assert(pieces.deep_view().push(s@.subrange(from as int, from as int))
            =~~= split_char(s@.subrange(from as int, from as int), sep));
    }
    while i < to
        invariant
            from <= start <= i <= to <= s@.len(),
            split_char(s@.subrange(from as int, i as int), sep) == pieces.deep_view().push(
                s@.subrange(start as int, i as int),
            ),
        decreases to - i,
    {
        let ghost prefix = s@.subrange(from as int, i as int);
        let ghost cur = s@.subrange(start as int, i as int);
        proof {
            lemma_split_char_push(prefix, sep, s@[i as int]);
            lemma_split_char_len(prefix, sep);
            assert(s@.subrange(from as int, i + 1int) =~~= prefix.push(s@[i as int]));
        }
        let c = s.get_char(i);
        if c == sep {
            let piece = s.substring_char(start, i).to_owned();
            pieces.push(piece);
            start = i + 1;
            proof {
                assert(split_char(s@.subrange(from as int, i + 1int), sep) =~~= pieces
                    .deep_view().push(s@.subrange(start as int, i + 1int)));
            }
        } else {
            proof {
                let old_split = split_char(prefix, sep);
                assert(old_split.last() == cur);
                assert(old_split.update(old_split.len() - 1, cur.push(s@[i as int]))
                    =~~= pieces.deep_view().push(s@.subrange(start as int, i + 1int)));
            }
        }
        i += 1;
    }
    let last = s.substring_char(start, to).to_owned();
    pieces.push(last);
    proof {
        assert(pieces.deep_view() =~~= split_char(
            s@.subrange(from as int, to as int),
            sep,
        ));
    }
    pieces
}

/// Text without the separator splits into itself alone.
pub proof fn lemma_split_no_sep(s: Seq<char>, sep: char)
    requires
        forall|i: int| 0 <= i < s.len() ==> (#[trigger] s[i]) != sep,
    ensures
        split_char(s, sep) == seq![s],
    decreases s.len(),
{
    if s.len() == 0 {
        assert(split_char(s, sep) =~~= seq![s]);
    } else {
        lemma_split_no_sep(s.drop_first(), sep);
        assert(split_char(s, sep) =~~= seq![s]);
    }
}

/// Whether the text holds the character anywhere.
pub(crate) fn contains_char(s: &str, c: char) -> (r: bool)
    ensures
        r == exists|i: int| 0 <= i < s@.len() && (#[trigger] s@[i]) == c,
{
    let n = s.unicode_len();
    let mut i: usize = 0;
    while i < n
        invariant
            i <= n,
            n == s@.len(),
            forall|j: int| 0 <= j < i ==> (#[trigger] s@[j]) != c,
        decreases n - i,
    {
        if s.get_char(i) == c {
            return true;
        }
        i += 1;
    }
    false
}

/// Compares two text slices character by character.
pub(crate) fn str_eq(a: &str, b: &str) -> (r: bool)
    ensures
        r == (a@ == b@),
{
    let n = a.unicode_len();
    let m = b.unicode_len();
    if n != m {
        return false;
    }
    let mut i: usize = 0;
    while i < n
        invariant
            n == a@.len(),
            n == b@.len(),
            i <= n,
            forall|j: int| 0 <= j < i ==> a@[j] == b@[j],
        decreases n - i,
    {
        if a.get_char(i) != b.get_char(i) {
            return false;
        }
        i += 1;
    }
    proof {
        assert(a@ =~= b@);
    }
    true
}

/// The characters the method-list parser strips around a name.
pub open spec fn is_space(c: char) -> bool {
    c == ' ' || c == '\t'
}

/// The sequence with every leading space removed.
pub open spec fn trim_front(s: Seq<char>) -> Seq<char>
    decreases s.len(),
{
    if s.len() > 0 && is_space(s[0]) {
        trim_front(s.drop_first())
    } else {
        s
    }
}

/// The sequence with every trailing space removed.
pub open spec fn trim_back(s: Seq<char>) -> Seq<char>
    decreases s.len(),
{
    if s.len() > 0 && is_space(s.last()) {
        trim_back(s.drop_last())
    } else {
        s
    }
}

/// The sequence with spaces removed from both ends.
pub open spec fn trim_spaces(s: Seq<char>) -> Seq<char> {
    trim_back(trim_front(s))
}

/// Removes spaces and tabs from both ends of a text slice.
pub(crate) fn trim(s: &str) -> (r: String)
    ensures
        r@ == trim_spaces(s@),
{
    let n = s.unicode_len();
    proof {
        assert(s@.subrange(0, n as int) =~= s@);
    }
    let mut a: usize = 0;
    while a < n && (s.get_char(a) == ' ' || s.get_char(a) == '\t')
        invariant
            a <= n,
            n == s@.len(),
            trim_front(s@) == trim_front(s@.subrange(a as int, n as int)),
        decreases n - a,
    {
        proof {
            assert(s@.subrange(a as int, n as int).drop_first() =~= s@.subrange(
                a + 1int,
                n as int,
            ));
        }
        a += 1;
    }
    proof {
        if a < n {
            assert(trim_front(s@.subrange(a as int, n as int)) == s@.subrange(
                a as int,
                n as int,
            ));
        } else {
            assert(s@.subrange(a as int, n as int) =~= Seq::<char>::empty());
        }
    }
    let mut b: usize = n;
    while b > a && (s.get_char(b - 1) == ' ' || s.get_char(b - 1) == '\t')
        invariant
            a <= b <= n,
            n == s@.len(),
            trim_front(s@) == trim_front(s@.subrange(a as int, n as int)),
            a < n ==> trim_front(s@) == s@.subrange(a as int, n as int),
            a >= n ==> trim_front(s@).len() == 0,
            trim_back(s@.subrange(a as int, n as int)) == trim_back(
                s@.subrange(a as int, b as int),
            ),
        decreases b,
    {
        proof {
            assert(s@.subrange(a as int, b as int).drop_last() =~= s@.subrange(
                a as int,
                b - 1int,
            ));
        }
        b -= 1;
    }
    proof {
        let piece = s@.subrange(a as int, b as int);
        if b > a {
            assert(!is_space(piece.last()));
            assert(trim_back(piece) == piece);
        } else {
            assert(piece =~= Seq::<char>::empty());
        }
        if a >= n {
            assert(s@.subrange(a as int, n as int) =~= Seq::<char>::empty());
        }
        assert(trim_spaces(s@) == piece);
    }
    s.substring_char(a, b).to_owned()
}

} // verus!
