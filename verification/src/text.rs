//! Character-level text utilities shared by the rest of the library.
//!
//! Strings are modelled by their sequence of `char`s. Parsing works on
//! `Vec<char>` buffers, whose view is that same sequence.

use vstd::prelude::*;

verus! {

/// Trusted: `String::push` of the standard library appends exactly one
/// character to the end of the string.
pub assume_specification[ String::push ](s: &mut String, c: char)
    ensures
        final(s)@ == old(s)@.push(c),
;

/// Trusted: `str::eq` of the standard library compares two string slices
/// character by character.
pub assume_specification[ <str as PartialEq>::eq ](a: &str, b: &str) -> (r: bool)
    ensures
        r == (a@ == b@),
;

/// The characters of `s`, in order.
pub fn chars_of(s: &str) -> (v: Vec<char>)
    ensures
        v@ == s@,
{
    let mut v: Vec<char> = Vec::new();
    for c in it: s.chars()
        invariant
            v@ == it.seq().take(it.index() as int),
            it.seq() == s@,
    {
        v.push(c);
    }
    v
}

/// The string made of the characters `v[from..to]`.
pub fn string_of_range(v: &Vec<char>, from: usize, to: usize) -> (s: String)
    requires
        from <= to <= v.len(),
    ensures
        s@ == v@.subrange(from as int, to as int),
{
    let mut s = String::new();
    let mut i: usize = from;
    while i < to
        invariant
            from <= i <= to <= v.len(),
            s@ == v@.subrange(from as int, i as int),
        decreases to - i,
    {
        s.push(v[i]);
        i += 1;
    }
    s
}

/// The string made of the characters of `v`.
pub fn string_of(v: &Vec<char>) -> (s: String)
    ensures
        s@ == v@,
{
    let s = string_of_range(v, 0, v.len());
    assert(v@.subrange(0, v.len() as int) == v@);
    s
}

/// Index of the first occurrence of `c` in `s`, or `s.len()` when `c`
/// does not occur.
pub open spec fn index_of<A>(s: Seq<A>, c: A) -> int
    decreases s.len(),
{
    if s.len() == 0 {
        0
    } else if s[0] == c {
        0
    } else {
        1 + index_of(s.drop_first(), c)
    }
}

/// `index_of` is the least index holding `c`, clamped to the length.
pub proof fn lemma_index_of<A>(s: Seq<A>, c: A)
    ensures
        0 <= index_of(s, c) <= s.len(),
        index_of(s, c) < s.len() ==> s[index_of(s, c)] == c,
        forall|j: int| 0 <= j < index_of(s, c) ==> s[j] != c,
    decreases s.len(),
{
    if s.len() > 0 && s[0] != c {
        let t = s.drop_first();
        lemma_index_of(t, c);
        assert forall|j: int| 0 <= j < index_of(s, c) implies s[j] != c by {
            if j > 0 {
                assert(s[j] == t[j - 1]);
            }
        }
    }
}

/// Any index that is preceded by no `c` and either holds `c` or is the
/// length is the one `index_of` gives.
pub proof fn lemma_index_of_is<A>(s: Seq<A>, c: A, i: int)
    requires
        0 <= i <= s.len(),
        forall|j: int| 0 <= j < i ==> s[j] != c,
        i < s.len() ==> s[i] == c,
    ensures
        index_of(s, c) == i,
{
    lemma_index_of(s, c);
    let k = index_of(s, c);
    if k < i {
        assert(s[k] == c);
    } else if k > i {
        assert(s[i] == c);
    }
}

/// `s` holds the character `c` somewhere.
pub open spec fn contains_char(s: Seq<char>, c: char) -> bool {
    index_of(s, c) < s.len()
}

/// `contains_char` agrees with the existence of an index holding `c`.
pub proof fn lemma_contains_char(s: Seq<char>, c: char)
    ensures
        contains_char(s, c) <==> exists|i: int| 0 <= i < s.len() && s[i] == c,
{
    lemma_index_of(s, c);
    if contains_char(s, c) {
        assert(s[index_of(s, c)] == c);
    }
}

/// Position of the first `c` at or after `start`, or `v.len()`.
pub fn find_char(v: &Vec<char>, start: usize, c: char) -> (i: usize)
    requires
        start <= v.len(),
    ensures
        i == start + index_of(v@.skip(start as int), c),
        start <= i <= v.len(),
{
    let mut i: usize = start;
    while i < v.len() && v[i] != c
        invariant
            start <= i <= v.len(),
            forall|j: int| start <= j < i ==> v@[j] != c,
        decreases v.len() - i,
    {
        i += 1;
    }
    proof {
        lemma_index_of_is(v@.skip(start as int), c, i - start);
    }
    i
}

/// A copy of the characters `v[from..to]`.
pub fn slice_chars(v: &Vec<char>, from: usize, to: usize) -> (r: Vec<char>)
    requires
        from <= to <= v.len(),
    ensures
        r@ == v@.subrange(from as int, to as int),
{
    let mut r: Vec<char> = Vec::new();
    let mut i: usize = from;
    while i < to
        invariant
            from <= i <= to <= v.len(),
            r@ == v@.subrange(from as int, i as int),
        decreases to - i,
    {
        r.push(v[i]);
        i += 1;
    }
    r
}

/// Appends the characters of `tail` to `buf`.
pub fn push_chars(buf: &mut Vec<char>, tail: &Vec<char>)
    ensures
        final(buf)@ == old(buf)@ + tail@,
{
    let mut i: usize = 0;
    while i < tail.len()
        invariant
            i <= tail.len(),
            buf@ == old(buf)@ + tail@.take(i as int),
        decreases tail.len() - i,
    {
        buf.push(tail[i]);
        i += 1;
    }
    assert(tail@.take(tail.len() as int) == tail@);
}

/// Appends the characters of the string `tail` to `buf`.
pub fn push_str_chars(buf: &mut Vec<char>, tail: &str)
    ensures
        final(buf)@ == old(buf)@ + tail@,
{
    let t = chars_of(tail);
    push_chars(buf, &t);
}

/// Whether the two buffers hold the same characters.
pub fn chars_eq(a: &Vec<char>, b: &Vec<char>) -> (r: bool)
    ensures
        r == (a@ == b@),
{
    if a.len() != b.len() {
        return false;
    }
    let mut i: usize = 0;
    while i < a.len()
        invariant
            i <= a.len(),
            a.len() == b.len(),
            forall|j: int| 0 <= j < i ==> a@[j] == b@[j],
        decreases a.len() - i,
    {
        if a[i] != b[i] {
            return false;
        }
        i += 1;
    }
    assert(a@ =~= b@);
    true
}

/// The pieces of `s` between occurrences of `sep`. There is always at
/// least one piece; an empty text has the single empty piece.
pub open spec fn split(s: Seq<char>, sep: char) -> Seq<Seq<char>>
    decreases s.len(),
{
    if s.len() == 0 {
        seq![Seq::<char>::empty()]
    } else {
        let head = split(s.drop_last(), sep);
        if s.last() == sep {
            head.push(Seq::<char>::empty())
        } else {
            head.update(head.len() - 1, head.last().push(s.last()))
        }
    }
}

/// `parts` joined with `sep` between neighbours.
pub open spec fn join(parts: Seq<Seq<char>>, sep: char) -> Seq<char>
    decreases parts.len(),
{
    if parts.len() == 0 {
        Seq::<char>::empty()
    } else if parts.len() == 1 {
        parts[0]
    } else {
        join(parts.drop_last(), sep).push(sep) + parts.last()
    }
}

/// A split always has at least one piece, and no piece holds the
/// separator.
pub proof fn lemma_split_pieces(s: Seq<char>, sep: char)
    ensures
        split(s, sep).len() >= 1,
        forall|k: int|
            0 <= k < split(s, sep).len() ==> !contains_char(#[trigger] split(s, sep)[k], sep),
    decreases s.len(),
{
    if s.len() == 0 {
        assert(index_of(Seq::<char>::empty(), sep) == 0);
    } else {
        let head = split(s.drop_last(), sep);
        lemma_split_pieces(s.drop_last(), sep);
        if s.last() == sep {
            assert(index_of(Seq::<char>::empty(), sep) == 0);
        } else {
            let old_last = head.last();
            let new_last = old_last.push(s.last());
            lemma_index_of(old_last, sep);
            assert forall|j: int| 0 <= j < new_last.len() implies new_last[j] != sep by {
                if j < old_last.len() {
                    assert(new_last[j] == old_last[j]);
                }
            }
            lemma_index_of_is(new_last, sep, new_last.len() as int);
        }
    }
}

/// Joining the pieces of a split gives the text back.
pub proof fn lemma_join_split(s: Seq<char>, sep: char)
    ensures
        join(split(s, sep), sep) == s,
    decreases s.len(),
{
    if s.len() == 0 {
    } else {
        let init = s.drop_last();
        let head = split(init, sep);
        lemma_split_pieces(init, sep);
        lemma_join_split(init, sep);
        if s.last() == sep {
            let all = head.push(Seq::<char>::empty());
            assert(all.drop_last() == head);
            assert(join(all, sep) == join(head, sep).push(sep) + Seq::<char>::empty());
            assert(join(all, sep) =~= s);
        } else {
            let all = head.update(head.len() - 1, head.last().push(s.last()));
            if head.len() == 1 {
                assert(join(head, sep) == head[0]);
                assert(join(all, sep) == all[0]);
                assert(join(all, sep) =~= s);
            } else {
                assert(all.drop_last() == head.drop_last());
                assert(join(all, sep) == join(head.drop_last(), sep).push(sep) + all.last());
                assert(join(head, sep) == join(head.drop_last(), sep).push(sep) + head.last());
                assert(join(all, sep) =~= join(head, sep).push(s.last()));
                assert(join(all, sep) =~= s);
            }
        }
    }
}

/// Splitting a text that holds `sep` at `a.len()` gives the pieces of
/// what is before it followed by the pieces of what is after it.
pub proof fn lemma_split_concat(a: Seq<char>, b: Seq<char>, sep: char)
    ensures
        split(a.push(sep) + b, sep) == split(a, sep) + split(b, sep),
    decreases b.len(),
{
    let whole = a.push(sep) + b;
    if b.len() == 0 {
        assert(whole =~= a.push(sep));
        assert(whole.drop_last() =~= a);
        assert(split(whole, sep) =~= split(a, sep) + split(b, sep));
    } else {
        let b0 = b.drop_last();
        lemma_split_concat(a, b0, sep);
        lemma_split_pieces(a, sep);
        lemma_split_pieces(b0, sep);
        assert(whole.drop_last() =~= a.push(sep) + b0);
        assert(whole.last() == b.last());
        let head = split(a, sep) + split(b0, sep);
        assert(head.last() == split(b0, sep).last());
        assert(split(whole, sep) =~= split(a, sep) + split(b, sep));
    }
}

/// A text without the separator is its own single piece.
pub proof fn lemma_split_without_separator(s: Seq<char>, sep: char)
    requires
        !contains_char(s, sep),
    ensures
        split(s, sep) == seq![s],
    decreases s.len(),
{
    if s.len() == 0 {
        assert(s =~= Seq::<char>::empty());
        assert(split(s, sep) =~= seq![s]);
    } else {
        lemma_index_of(s, sep);
        let init = s.drop_last();
        assert forall|j: int| 0 <= j < init.len() implies init[j] != sep by {
            assert(init[j] == s[j]);
        }
        lemma_index_of_is(init, sep, init.len() as int);
        lemma_split_without_separator(init, sep);
        assert(s.last() != sep);
        assert(init.push(s.last()) =~= s);
        assert(split(s, sep) =~= seq![s]);
    }
}

/// The character sequences held by a list of buffers.
pub open spec fn pieces_view(v: Seq<Vec<char>>) -> Seq<Seq<char>> {
    v.map_values(|p: Vec<char>| p@)
}

/// The pieces of `v` between occurrences of `sep`.
pub fn split_chars(v: &Vec<char>, sep: char) -> (r: Vec<Vec<char>>)
    ensures
        pieces_view(r@) == split(v@, sep),
{
    let mut done: Vec<Vec<char>> = Vec::new();
    let mut current: Vec<char> = Vec::new();
    let mut i: usize = 0;
    proof {
        assert(v@.take(0) =~= Seq::<char>::empty());
        assert(pieces_view(done@).push(current@) =~= split(v@.take(0), sep));
    }
    while i < v.len()
        invariant
            i <= v.len(),
            pieces_view(done@).push(current@) == split(v@.take(i as int), sep),
        decreases v.len() - i,
    {
        let ghost before = pieces_view(done@).push(current@);
        let ghost prefix = v@.take(i as int + 1);
        proof {
            assert(prefix.drop_last() =~= v@.take(i as int));
            assert(prefix.last() == v@[i as int]);
        }
        if v[i] == sep {
            done.push(current);
            current = Vec::new();
            proof {
                assert(pieces_view(done@) =~= before);
                assert(pieces_view(done@).push(current@) =~= split(prefix, sep));
            }
        } else {
            current.push(v[i]);
            proof {
                assert(pieces_view(done@).push(current@) =~= before.update(
                    before.len() - 1,
                    before.last().push(v@[i as int]),
                ));
            }
        }
        i += 1;
    }
    proof {
        assert(v@.take(v.len() as int) =~= v@);
    }
    let ghost before = pieces_view(done@).push(current@);
    done.push(current);
    proof {
        assert(pieces_view(done@) =~= before);
    }
    done
}

/// The decimal digit for `d`, which is below ten.
pub open spec fn digit(d: nat) -> char {
    (('0' as nat) + d) as char
}

/// The decimal notation of `n`, without leading zeros (`"0"` for zero).
pub open spec fn decimal(n: nat) -> Seq<char>
    decreases n,
{
    if n < 10 {
        seq![digit(n)]
    } else {
        decimal(n / 10).push(digit(n % 10))
    }
}

/// The decimal digit for `d`.
pub fn digit_char(d: u8) -> (c: char)
    requires
        d < 10,
    ensures
        c == digit(d as nat),
{
    (48u8 + d) as char
}

/// The value of the decimal digit `c`, if it is one.
pub fn digit_value(c: char) -> (d: Option<u8>)
    ensures
        '0' <= c <= '9' ==> d == Some((c as nat - '0' as nat) as u8),
        !('0' <= c <= '9') ==> d is None,
{
    let n: u32 = c as u32;
    if n >= 48 && n <= 57 {
        Some((n - 48) as u8)
    } else {
        None
    }
}

/// The decimal notation of `n`.
pub fn decimal_chars(n: u64) -> (r: Vec<char>)
    ensures
        r@ == decimal(n as nat),
{
    // Digits come out lowest first; they are reversed at the end.
    let mut rev: Vec<char> = Vec::new();
    let mut rest: u64 = n;
    while rest >= 10
        invariant
            decimal(n as nat) == decimal(rest as nat) + rev@.reverse(),
        decreases rest,
    {
        let d: u8 = (rest % 10) as u8;
        let ghost prev = rev@;
        rev.push(digit_char(d));
        proof {
            assert(rev@.reverse() =~= seq![digit(d as nat)] + prev.reverse());
            assert(decimal(rest as nat) == decimal((rest / 10) as nat).push(digit(d as nat)));
            assert(decimal(n as nat) =~= decimal((rest / 10) as nat) + rev@.reverse());
        }
        rest = rest / 10;
    }
    let mut r: Vec<char> = Vec::new();
    r.push(digit_char(rest as u8));
    let mut k: usize = rev.len();
    while k > 0
        invariant
            k <= rev.len(),
            r@ == decimal(rest as nat) + rev@.reverse().take(rev.len() - k),
        decreases k,
    {
        k -= 1;
        r.push(rev[k]);
        proof {
            let m = rev.len() - k;
            assert(rev@.reverse()[m - 1] == rev@[k as int]);
            assert(rev@.reverse().take(m) =~= rev@.reverse().take(m - 1).push(rev@[k as int]));
        }
    }
    proof {
        assert(rev@.reverse().take(rev.len() as int) =~= rev@.reverse());
    }
    r
}

/// The character sequences of a list of strings.
pub open spec fn strings_view(v: Seq<String>) -> Seq<Seq<char>> {
    v.map_values(|s: String| s@)
}

/// The strings joined with `sep` between neighbours; no strings give the
/// empty string.
pub fn join_strings(parts: &Vec<String>, sep: char) -> (joined: String)
    ensures
        joined@ == join(strings_view(parts@), sep),
{
    let mut joined = String::new();
    let mut i: usize = 0;
    proof {
        assert(strings_view(parts@).take(0) =~= Seq::<Seq<char>>::empty());
    }
    while i < parts.len()
        invariant
            i <= parts.len(),
            joined@ == join(strings_view(parts@).take(i as int), sep),
        decreases parts.len() - i,
    {
        proof {
            let next = strings_view(parts@).take(i as int + 1);
            assert(next.drop_last() =~= strings_view(parts@).take(i as int));
            assert(next.last() == parts@[i as int]@);
            if i == 0 {
                assert(joined@ + parts@[i as int]@ =~= parts@[i as int]@);
            }
        }
        if i > 0 {
            joined.push(sep);
        }
        joined.append(parts[i].as_str());
        i += 1;
    }
    proof {
        assert(strings_view(parts@).take(parts.len() as int) =~= strings_view(parts@));
    }
    joined
}

/// A text made of two parts holds `c` exactly when one of the parts does.
pub proof fn lemma_contains_char_concat(a: Seq<char>, b: Seq<char>, c: char)
    ensures
        contains_char(a + b, c) <==> contains_char(a, c) || contains_char(b, c),
{
    lemma_contains_char(a + b, c);
    lemma_contains_char(a, c);
    lemma_contains_char(b, c);
    if contains_char(a, c) {
        let i = choose|i: int| 0 <= i < a.len() && a[i] == c;
        assert((a + b)[i] == c);
    }
    if contains_char(b, c) {
        let i = choose|i: int| 0 <= i < b.len() && b[i] == c;
        assert((a + b)[a.len() + i] == c);
    }
    if contains_char(a + b, c) {
        let i = choose|i: int| 0 <= i < (a + b).len() && (a + b)[i] == c;
        if i < a.len() {
            assert(a[i] == c);
        } else {
            assert(b[i - a.len()] == c);
        }
    }
}

/// A text with one more character holds `c` exactly when the text did or
/// the character is `c`.
pub proof fn lemma_contains_char_push(a: Seq<char>, x: char, c: char)
    ensures
        contains_char(a.push(x), c) <==> contains_char(a, c) || x == c,
{
    assert(a.push(x) =~= a + seq![x]);
    lemma_contains_char_concat(a, seq![x], c);
    lemma_contains_char(seq![x], c);
    if x == c {
        assert(seq![x][0] == c);
    }
}

} // verus!
