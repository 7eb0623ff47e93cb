use vstd::prelude::*;

verus! {

/// Appends one character to a string.
///
/// Calls `String::push`, whose documentation says that it appends the given
/// `char` to the end of the string; the contract states exactly that.
#[verifier::external_body]
pub(crate) fn push_char(s: &mut String, c: char)
    ensures
        final(s)@ == old(s)@.push(c),
{
    s.push(c);
}

/// The characters of `s`, in order.
pub fn chars_of(s: &str) -> (v: Vec<char>)
    ensures
        v@ == s@,
{
    let mut v: Vec<char> = Vec::new();
    for c in it: s.chars()
        invariant
            v@ == it.seq().take(it.index() as int),
    {
        v.push(c);
    }
    v
}

/// A string holding exactly the characters of `v`.
pub fn string_of(v: &Vec<char>) -> (s: String)
    ensures
        s@ == v@,
{
    let mut s = String::new();
    let mut i: usize = 0;
    while i < v.len()
        invariant
            i <= v.len(),
            s@ == v@.take(i as int),
        decreases v.len() - i,
    {
        push_char(&mut s, v[i]);
        proof {
            assert(v@.take(i as int).push(v@[i as int]) =~= v@.take(i + 1));
        }
        i += 1;
    }
    proof {
        assert(v@.take(v@.len() as int) =~= v@);
    }
    s
}

/// A string holding the characters of `a` followed by those of `b`.
pub fn concat_str(a: &str, b: &str) -> (s: String)
    ensures
        s@ == a@ + b@,
{
    let mut v = chars_of(a);
    let w = chars_of(b);
    let mut i: usize = 0;
    let ghost v0 = v@;
    while i < w.len()
        invariant
            i <= w@.len(),
            v@ == v0 + w@.take(i as int),
        decreases w@.len() - i,
    {
        v.push(w[i]);
        assert(v@ =~= v0 + w@.take(i + 1));
        i += 1;
    }
    assert(w@.take(i as int) =~= w@);
    string_of(&v)
}

/// The pieces of `lines` joined with `sep` between each two neighbours.
pub open spec fn join_with(lines: Seq<Seq<char>>, sep: char) -> Seq<char>
    decreases lines.len(),
{
    if lines.len() == 0 {
        seq![]
    } else if lines.len() == 1 {
        lines[0]
    } else {
        join_with(lines.drop_last(), sep).push(sep) + lines.last()
    }
}

/// The character sequences of a sequence of strings.
pub open spec fn string_views(v: Seq<String>) -> Seq<Seq<char>> {
    v.map_values(|l: String| l@)
}

/// The pieces of `s` between the occurrences of `sep`: one more piece than
/// there are separators, the first running up to the first separator.
pub open spec fn split_on(s: Seq<char>, sep: char) -> Seq<Seq<char>>
    decreases s.len(),
{
    if s.len() == 0 {
        seq![seq![]]
    } else {
        let rest = split_on(s.drop_first(), sep);
        if s[0] == sep {
            seq![seq![]].add(rest)
        } else {
            rest.update(0, seq![s[0]].add(rest[0]))
        }
    }
}

pub proof fn lemma_split_on_nonempty(s: Seq<char>, sep: char)
    ensures
        split_on(s, sep).len() >= 1,
    decreases s.len(),
{
    if s.len() > 0 {
        lemma_split_on_nonempty(s.drop_first(), sep);
    }
}

/// The character sequences of a vector of character vectors.
pub open spec fn char_vec_views(v: Seq<Vec<char>>) -> Seq<Seq<char>> {
    v.map_values(|l: Vec<char>| l@)
}

/// Splits `s` at each occurrence of `sep`.
pub fn split_chars(s: &Vec<char>, sep: char) -> (pieces: Vec<Vec<char>>)
    ensures
        char_vec_views(pieces@) == split_on(s@, sep),
{
    let n = s.len();
    let mut done: Vec<Vec<char>> = Vec::new();
    let mut cur: Vec<char> = Vec::new();
    let mut i: usize = 0;
    proof {
        assert(s@.skip(0) =~= s@);
        lemma_split_on_nonempty(s@, sep);
        let r = split_on(s@, sep);
        assert(seq![Seq::<char>::empty() + r[0]] + r.drop_first() =~= r);
        assert(char_vec_views(done@) =~= Seq::<Seq<char>>::empty());
        assert(Seq::<Seq<char>>::empty() + seq![Seq::<char>::empty() + r[0]] + r.drop_first() =~= r);
    }
    while i < n
        invariant
            n == s@.len(),
            i <= n,
            split_on(s@, sep) == char_vec_views(done@) + seq![cur@ + split_on(s@.skip(i as int), sep)[0]]
                + split_on(s@.skip(i as int), sep).drop_first(),
        decreases n - i,
    {
        let c = s[i];
        let ghost t = s@.skip(i as int);
        let ghost r2 = split_on(s@.skip(i + 1), sep);
        proof {
            assert(t[0] == c);
            assert(t.drop_first() =~= s@.skip(i + 1));
            lemma_split_on_nonempty(s@.skip(i + 1), sep);
        }
        if c == sep {
            let ghost d0 = char_vec_views(done@);
            let ghost c0 = cur@;
            done.push(cur);
            cur = Vec::new();
            proof {
                assert(char_vec_views(done@) =~= d0.push(c0));
                assert(split_on(t, sep) == seq![Seq::<char>::empty()] + r2);
                assert((seq![Seq::<char>::empty()] + r2)[0] =~= Seq::<char>::empty());
                assert((seq![Seq::<char>::empty()] + r2).drop_first() =~= r2);
                assert(c0 + Seq::<char>::empty() =~= c0);
                assert(seq![cur@ + r2[0]] + r2.drop_first() =~= r2);
                assert(d0 + seq![c0] + r2 =~= d0.push(c0) + seq![cur@ + r2[0]] + r2.drop_first());
            }
        } else {
            let ghost c0 = cur@;
            cur.push(c);
            proof {
                assert(split_on(t, sep) == r2.update(0, seq![c] + r2[0]));
                assert(r2.update(0, seq![c] + r2[0]).drop_first() =~= r2.drop_first());
                assert(c0 + (seq![c] + r2[0]) =~= cur@ + r2[0]);
            }
        }
        i += 1;
    }
    proof {
        assert(s@.skip(n as int) =~= Seq::<char>::empty());
        let r = split_on(Seq::<char>::empty(), sep);
        assert(r == seq![Seq::<char>::empty()]);
        assert(cur@ + r[0] =~= cur@);
        assert(r.drop_first() =~= Seq::<Seq<char>>::empty());
    }
    let ghost d0 = char_vec_views(done@);
    let ghost c0 = cur@;
    done.push(cur);
    proof {
        assert(char_vec_views(done@) =~= d0.push(c0));
        assert(d0 + seq![c0 + Seq::<char>::empty()] + Seq::<Seq<char>>::empty() =~= d0.push(c0));
    }
    done
}

/// Unicode `White_Space`, the property that `char::is_whitespace` tests.
pub open spec fn is_white(c: char) -> bool {
    let u = c as u32;
    (0x9 <= u && u <= 0xd) || u == 0x20 || u == 0x85 || u == 0xa0 || u == 0x1680 || (0x2000
        <= u && u <= 0x200a) || u == 0x2028 || u == 0x2029 || u == 0x202f || u == 0x205f || u
        == 0x3000
}

pub fn char_is_white(c: char) -> (b: bool)
    ensures
        b == is_white(c),
{
    let u = c as u32;
    (0x9 <= u && u <= 0xd) || u == 0x20 || u == 0x85 || u == 0xa0 || u == 0x1680 || (0x2000
        <= u && u <= 0x200a) || u == 0x2028 || u == 0x2029 || u == 0x202f || u == 0x205f || u
        == 0x3000
}

/// `s` without the white space at its start.
pub open spec fn trim_start_white(s: Seq<char>) -> Seq<char>
    decreases s.len(),
{
    if s.len() > 0 && is_white(s[0]) {
        trim_start_white(s.drop_first())
    } else {
        s
    }
}

/// `s` without the white space at its end.
pub open spec fn trim_end_white(s: Seq<char>) -> Seq<char>
    decreases s.len(),
{
    if s.len() > 0 && is_white(s.last()) {
        trim_end_white(s.drop_last())
    } else {
        s
    }
}

/// `s` without white space at either end, as `str::trim` gives it.
pub open spec fn trim_white(s: Seq<char>) -> Seq<char> {
    trim_end_white(trim_start_white(s))
}

/// `s` with the white space at both ends removed.
pub fn trim_chars(s: &Vec<char>) -> (t: Vec<char>)
    ensures
        t@ == trim_white(s@),
{
    let n = s.len();
    let mut a: usize = 0;
    proof {
        assert(s@.subrange(0, n as int) =~= s@);
    }
    while a < n && char_is_white(s[a])
        invariant
            a <= n == s@.len(),
            trim_start_white(s@) == trim_start_white(s@.subrange(a as int, n as int)),
        decreases n - a,
    {
        assert(s@.subrange(a as int, n as int).drop_first() =~= s@.subrange(a + 1, n as int));
        a += 1;
    }
    let mut b: usize = n;
    assert(trim_start_white(s@) == s@.subrange(a as int, b as int));
    while b > a && char_is_white(s[b - 1])
        invariant
            a <= b <= n == s@.len(),
            trim_white(s@) == trim_end_white(s@.subrange(a as int, b as int)),
        decreases b,
    {
        assert(s@.subrange(a as int, b as int).drop_last() =~= s@.subrange(a as int, b - 1));
        b -= 1;
    }
    let mut t: Vec<char> = Vec::new();
    let mut k: usize = a;
    while k < b
        invariant
            a <= k <= b <= n == s@.len(),
            t@ == s@.subrange(a as int, k as int),
        decreases b - k,
    {
        t.push(s[k]);
        assert(t@ =~= s@.subrange(a as int, k + 1));
        k += 1;
    }
    t
}

/// `hay` holds `needle` as a contiguous piece.
pub open spec fn has_piece(hay: Seq<char>, needle: Seq<char>) -> bool {
    exists|i: int| 0 <= i && i + needle.len() <= hay.len() && #[trigger] hay.subrange(i, i + needle.len()) == needle
}

/// Whether `hay` holds `needle` as a contiguous piece.
pub fn contains_chars(hay: &Vec<char>, needle: &Vec<char>) -> (b: bool)
    ensures
        b == has_piece(hay@, needle@),
{
    let n = hay.len();
    let m = needle.len();
    if m > n {
        return false;
    }
    let mut i: usize = 0;
    while i <= n - m
        invariant
            m <= n == hay@.len(),
            m == needle@.len(),
            i <= n - m + 1,
            forall|j: int| 0 <= j < i ==> #[trigger] hay@.subrange(j, j + m) != needle@,
        decreases n - m + 1 - i,
    {
        let mut k: usize = 0;
        let mut same = true;
        while k < m && same
            invariant
                m <= n == hay@.len(),
                m == needle@.len(),
                i <= n - m,
                k <= m,
                same <==> (forall|q: int| 0 <= q < k ==> hay@[i + q] == needle@[q]),
            decreases m - k,
        {
            if hay[i + k] != needle[k] {
                same = false;
            }
            k += 1;
        }
        if same {
            assert(hay@.subrange(i as int, i + m) =~= needle@);
            return true;
        }
        proof {
            let q = choose|q: int| 0 <= q < k && hay@[i + q] != needle@[q];
            assert(hay@.subrange(i as int, i + m)[q] != needle@[q]);
        }
        i += 1;
    }
    proof {
        assert forall|j: int| 0 <= j && j + m <= n implies #[trigger] hay@.subrange(j, j + m) != needle@ by {
            assert(j < i);
        }
    }
    false
}

/// The strings of `v` joined with LF.
pub fn join_strings(v: &Vec<String>) -> (s: String)
    ensures
        s@ == join_with(string_views(v@), '\n'),
{
    let mut out: Vec<char> = Vec::new();
    let mut i: usize = 0;
    while i < v.len()
        invariant
            i <= v@.len(),
            out@ == join_with(string_views(v@).take(i as int), '\n'),
        decreases v@.len() - i,
    {
        let piece = chars_of(v[i].as_str());
        let ghost before = out@;
        let ghost vs = string_views(v@);
        assert(vs.take(i + 1).drop_last() =~= vs.take(i as int));
        assert(vs.take(i + 1).last() == piece@);
        if i > 0 {
            out.push('\n');
        } else {
            assert(before =~= Seq::<char>::empty());
        }
        let mut k: usize = 0;
        let ghost mid = out@;
        while k < piece.len()
            invariant
                k <= piece@.len(),
                out@ == mid + piece@.take(k as int),
            decreases piece@.len() - k,
        {
            out.push(piece[k]);
            assert(out@ =~= mid + piece@.take(k + 1));
            k += 1;
        }
        assert(piece@.take(k as int) =~= piece@);
        assert(i == 0 ==> out@ =~= piece@);
        i += 1;
    }
    assert(string_views(v@).take(i as int) =~= string_views(v@));
    string_of(&out)
}

proof fn lemma_join_cons(a: Seq<char>, rest: Seq<Seq<char>>, sep: char)
    requires
        rest.len() >= 1,
    ensures
        join_with(seq![a] + rest, sep) == a.push(sep) + join_with(rest, sep),
    decreases rest.len(),
{
    let l = seq![a] + rest;
    assert(l.drop_last() =~= seq![a] + rest.drop_last());
    if rest.len() == 1 {
        assert(seq![a].len() == 1);
        assert(join_with(seq![a], sep) == a);
        assert(join_with(rest, sep) == rest[0]);
    } else {
        lemma_join_cons(a, rest.drop_last(), sep);
        assert(a.push(sep) + join_with(rest.drop_last(), sep).push(sep) + rest.last() =~= a.push(
            sep,
        ) + (join_with(rest.drop_last(), sep).push(sep) + rest.last()));
    }
}

proof fn lemma_join_update_first(c: char, rest: Seq<Seq<char>>, sep: char)
    requires
        rest.len() >= 1,
    ensures
        join_with(rest.update(0, seq![c] + rest[0]), sep) == seq![c] + join_with(rest, sep),
    decreases rest.len(),
{
    let l = rest.update(0, seq![c] + rest[0]);
    if rest.len() == 1 {
    } else {
        assert(l.drop_last() =~= rest.drop_last().update(0, seq![c] + rest.drop_last()[0]));
        lemma_join_update_first(c, rest.drop_last(), sep);
        assert(seq![c] + join_with(rest.drop_last(), sep).push(sep) + rest.last() =~= seq![c] + (
        join_with(rest.drop_last(), sep).push(sep) + rest.last()));
    }
}

/// Splitting `s` at `sep` and joining the pieces with `sep` gives `s` back,
/// and no piece holds `sep`.
pub proof fn lemma_join_split(s: Seq<char>, sep: char)
    ensures
        join_with(split_on(s, sep), sep) == s,
        forall|i: int| 0 <= i < split_on(s, sep).len() ==> !(#[trigger] split_on(s, sep)[i]).contains(sep),
    decreases s.len(),
{
    lemma_split_on_nonempty(s, sep);
    if s.len() == 0 {
        assert(split_on(s, sep)[0] =~= Seq::<char>::empty());
        assert(join_with(split_on(s, sep), sep) == split_on(s, sep)[0]);
        assert(s =~= Seq::<char>::empty());
    } else {
        let rest = split_on(s.drop_first(), sep);
        lemma_join_split(s.drop_first(), sep);
        lemma_split_on_nonempty(s.drop_first(), sep);
        if s[0] == sep {
            lemma_join_cons(seq![], rest, sep);
            assert(Seq::<char>::empty().push(sep) + s.drop_first() =~= s);
            assert forall|i: int| 0 <= i < split_on(s, sep).len() implies !(#[trigger] split_on(s, sep)[i]).contains(sep) by {
                if i > 0 {
                    assert(split_on(s, sep)[i] == rest[i - 1]);
                } else {
                    assert(split_on(s, sep)[i] =~= Seq::<char>::empty());
                }
            }
        } else {
            lemma_join_update_first(s[0], rest, sep);
            assert(seq![s[0]] + s.drop_first() =~= s);
            assert forall|i: int| 0 <= i < split_on(s, sep).len() implies !(#[trigger] split_on(s, sep)[i]).contains(sep) by {
                if i > 0 {
                    assert(split_on(s, sep)[i] == rest[i]);
                } else {
                    let p = split_on(s, sep)[0];
                    assert(p == seq![s[0]] + rest[0]);
                    if p.contains(sep) {
                        let k = choose|k: int| 0 <= k < p.len() && p[k] == sep;
                        assert(k > 0);
                        assert(rest[0][k - 1] == sep);
                    }
                }
            }
        }
    }
}

/// A character of a piece is a character of the pieces joined.
pub proof fn lemma_join_contains(lines: Seq<Seq<char>>, sep: char, i: int, c: char)
    requires
        0 <= i < lines.len(),
        lines[i].contains(c),
    ensures
        join_with(lines, sep).contains(c),
    decreases lines.len(),
{
    let k = choose|k: int| 0 <= k < lines[i].len() && lines[i][k] == c;
    if lines.len() == 1 {
        assert(join_with(lines, sep)[k] == c);
    } else if i == lines.len() - 1 {
        let front = join_with(lines.drop_last(), sep).push(sep);
        assert(join_with(lines, sep)[front.len() + k] == c);
    } else {
        assert(lines.drop_last()[i] == lines[i]);
        lemma_join_contains(lines.drop_last(), sep, i, c);
        let j = choose|j: int| 0 <= j < join_with(lines.drop_last(), sep).len() && join_with(lines.drop_last(), sep)[j] == c;
        assert(join_with(lines, sep)[j] == c);
    }
}

/// Trimming keeps the piece of `s` between its leading and its trailing white
/// space: `trim_white(s)` is `s[a..b]`, every character before `a` or from `b`
/// on is white space, and the first and last characters kept are not.
pub proof fn lemma_trim_bounds(s: Seq<char>) -> (ab: (int, int))
    ensures
        0 <= ab.0 <= ab.1 <= s.len(),
        trim_white(s) == s.subrange(ab.0, ab.1),
        forall|k: int| 0 <= k < ab.0 ==> is_white(#[trigger] s[k]),
        forall|k: int| ab.1 <= k < s.len() ==> is_white(#[trigger] s[k]),
{
    let a = lemma_trim_start_skip(s);
    let t = s.skip(a);
    let b = lemma_trim_end_take(t);
    assert(t.take(b) =~= s.subrange(a, a + b));
    assert forall|k: int| a + b <= k < s.len() implies is_white(#[trigger] s[k]) by {
        assert(s[k] == t[k - a]);
    }
    (a, a + b)
}

proof fn lemma_trim_start_skip(s: Seq<char>) -> (a: int)
    ensures
        0 <= a <= s.len(),
        trim_start_white(s) == s.skip(a),
        forall|k: int| 0 <= k < a ==> is_white(#[trigger] s[k]),
    decreases s.len(),
{
    if s.len() > 0 && is_white(s[0]) {
        let a = lemma_trim_start_skip(s.drop_first());
        assert(s.drop_first().skip(a) =~= s.skip(a + 1));
        assert forall|k: int| 0 <= k < a + 1 implies is_white(#[trigger] s[k]) by {
            if k > 0 {
                assert(s[k] == s.drop_first()[k - 1]);
            }
        }
        a + 1
    } else {
        assert(s.skip(0) =~= s);
        0
    }
}

proof fn lemma_trim_end_take(s: Seq<char>) -> (b: int)
    ensures
        0 <= b <= s.len(),
        trim_end_white(s) == s.take(b),
        forall|k: int| b <= k < s.len() ==> is_white(#[trigger] s[k]),
    decreases s.len(),
{
    if s.len() > 0 && is_white(s.last()) {
        let b = lemma_trim_end_take(s.drop_last());
        assert(s.drop_last().take(b) =~= s.take(b));
        assert forall|k: int| b <= k < s.len() implies is_white(#[trigger] s[k]) by {
            if k < s.len() - 1 {
                assert(s[k] == s.drop_last()[k]);
            }
        }
        b
    } else {
        assert(s.take(s.len() as int) =~= s);
        s.len() as int
    }
}

/// A piece of a part of `s` is a piece of `s`.
pub proof fn lemma_piece_of_part(s: Seq<char>, a: int, b: int, needle: Seq<char>)
    requires
        0 <= a <= b <= s.len(),
        has_piece(s.subrange(a, b), needle),
    ensures
        has_piece(s, needle),
{
    let t = s.subrange(a, b);
    let i = choose|i: int| 0 <= i && i + needle.len() <= t.len() && #[trigger] t.subrange(i, i + needle.len()) == needle;
    assert(s.subrange(a + i, a + i + needle.len()) =~= t.subrange(i, i + needle.len()));
}

} // verus!
