//! Splitting text into lines and whitespace-separated fields.
use vstd::prelude::*;

verus! {

/// `String::push` appends one character to the end of the string.
pub assume_specification[ String::push ](s: &mut String, c: char)
    ensures
        final(s)@ == old(s)@.push(c),
;

/// The characters that separate fields: those with the Unicode property
/// `White_Space`.
pub open spec fn is_space(c: char) -> bool {
    let u = c as u32;
    ||| 0x09 <= u <= 0x0d
    ||| u == 0x20
    ||| u == 0x85
    ||| u == 0xa0
    ||| u == 0x1680
    ||| 0x2000 <= u <= 0x200a
    ||| u == 0x2028
    ||| u == 0x2029
    ||| u == 0x202f
    ||| u == 0x205f
    ||| u == 0x3000
}

/// Whether `c` separates fields.
pub fn is_whitespace(c: char) -> (r: bool)
    ensures
        r == is_space(c),
{
    let u: u32 = c as u32;
    (0x09 <= u && u <= 0x0d) || u == 0x20 || u == 0x85 || u == 0xa0 || u == 0x1680 || (0x2000 <= u
        && u <= 0x200a) || u == 0x2028 || u == 0x2029 || u == 0x202f || u == 0x205f || u == 0x3000
}

/// The characters of `s`, in order.
pub fn to_chars(s: &str) -> (v: Vec<char>)
    ensures
        v@ == s@,
{
    let mut v: Vec<char> = Vec::new();
    for c in it: s.chars()
        invariant
            v@ == it.seq().take(it.index()),
            it.seq() == s@,
    {
        v.push(c);
    }
    v
}

/// The string made of the characters `chars`.
pub fn to_string(chars: &[char]) -> (s: String)
    ensures
        s@ == chars@,
{
    let mut s = String::new();
    let mut i: usize = 0;
    while i < chars.len()
        invariant
            i <= chars.len(),
            s@ == chars@.take(i as int),
        decreases chars.len() - i,
    {
        s.push(chars[i]);
        i += 1;
    }
    s
}

/// The characters `chars[from..to]`, copied.
pub(crate) fn copy_range(chars: &[char], from: usize, to: usize) -> (v: Vec<char>)
    requires
        from <= to <= chars.len(),
    ensures
        v@ == chars@.subrange(from as int, to as int),
{
    let mut v: Vec<char> = Vec::new();
    let mut i: usize = from;
    while i < to
        invariant
            from <= i <= to <= chars.len(),
            v@ == chars@.subrange(from as int, i as int),
        decreases to - i,
    {
        v.push(chars[i]);
        i += 1;
    }
    v
}

/// Length of the longest prefix of `s` that holds no separator.
pub open spec fn token_len(s: Seq<char>) -> nat
    decreases s.len(),
{
    if s.len() > 0 && !is_space(s[0]) {
        1 + token_len(s.drop_first())
    } else {
        0
    }
}

/// The fields of `s`: its maximal runs of characters that are no separators,
/// from left to right.
pub open spec fn tokens(s: Seq<char>) -> Seq<Seq<char>>
    decreases s.len(),
{
    if s.len() == 0 {
        Seq::empty()
    } else if is_space(s[0]) {
        tokens(s.drop_first())
    } else {
        proof {
            lemma_token_len(s);
        }
        seq![s.take(token_len(s) as int)] + tokens(s.skip(token_len(s) as int))
    }
}

/// `token_len(s)` marks the end of a run: nothing before it is a separator,
/// and what stands at it, if anything, is one.
pub proof fn lemma_token_len(s: Seq<char>)
    ensures
        token_len(s) <= s.len(),
        forall|k: int| 0 <= k < token_len(s) ==> !is_space(#[trigger] s[k]),
        token_len(s) < s.len() ==> is_space(s[token_len(s) as int]),
    decreases s.len(),
{
    if s.len() > 0 && !is_space(s[0]) {
        let t = s.drop_first();
        lemma_token_len(t);
        assert forall|k: int| 0 <= k < token_len(s) implies !is_space(#[trigger] s[k]) by {
            if k > 0 {
                assert(s[k] == t[k - 1]);
            }
        }
        if token_len(s) < s.len() {
            assert(s[token_len(s) as int] == t[token_len(t) as int]);
        }
    }
}

/// The end of a run determines `token_len`.
pub proof fn lemma_token_len_is(s: Seq<char>, n: int)
    requires
        0 <= n <= s.len(),
        forall|k: int| 0 <= k < n ==> !is_space(#[trigger] s[k]),
        n < s.len() ==> is_space(s[n]),
    ensures
        token_len(s) == n,
    decreases s.len(),
{
    if n > 0 {
        let t = s.drop_first();
        assert forall|k: int| 0 <= k < n - 1 implies !is_space(#[trigger] t[k]) by {
            assert(t[k] == s[k + 1]);
        }
        lemma_token_len_is(t, n - 1);
    }
}

/// The end of the field that starts at `from`: the index of the next
/// separator, or the length of `chars`.
pub(crate) fn token_end(chars: &[char], from: usize) -> (end: usize)
    requires
        from <= chars.len(),
    ensures
        from <= end <= chars.len(),
        end - from == token_len(chars@.skip(from as int)),
{
    let mut end: usize = from;
    while end < chars.len() && !is_whitespace(chars[end])
        invariant
            from <= end <= chars.len(),
            forall|k: int| from <= k < end ==> !is_space(#[trigger] chars@[k]),
        decreases chars.len() - end,
    {
        end += 1;
    }
    proof {
        lemma_token_len_is(chars@.skip(from as int), end - from);
    }
    end
}

/// The views of the elements of `v`.
pub open spec fn views(v: Seq<Vec<char>>) -> Seq<Seq<char>> {
    v.map_values(|x: Vec<char>| x@)
}

/// The texts that the strings `v` hold.
pub open spec fn texts(v: Seq<String>) -> Seq<Seq<char>> {
    v.map_values(|s: String| s@)
}

/// Splits `chars` into its whitespace-separated fields.
pub fn split_whitespace(chars: &[char]) -> (out: Vec<Vec<char>>)
    ensures
        views(out@) == tokens(chars@),
{
    let mut out: Vec<Vec<char>> = Vec::new();
    let mut i: usize = 0;
    assert(chars@.skip(0) == chars@);
    assert(views(out@) + tokens(chars@) == tokens(chars@));
    while i < chars.len()
        invariant
            i <= chars.len(),
            tokens(chars@) == views(out@) + tokens(chars@.skip(i as int)),
        decreases chars.len() - i,
    {
        let ghost rest = chars@.skip(i as int);
        if is_whitespace(chars[i]) {
            assert(rest.drop_first() == chars@.skip(i + 1));
            i += 1;
        } else {
            let end = token_end(chars, i);
            let tok = copy_range(chars, i, end);
            assert(rest.take(end - i) == chars@.subrange(i as int, end as int));
            assert(rest.skip(end - i) == chars@.skip(end as int));
            let ghost before = views(out@);
            out.push(tok);
            assert(views(out@) == before + seq![tok@]);
            i = end;
        }
    }
    assert(chars@.skip(i as int).len() == 0);
    out
}

/// Number of characters of `s` that stand before its first `sep`; the length
/// of `s` where it holds none.
pub open spec fn prefix_len(s: Seq<char>, sep: char) -> nat
    decreases s.len(),
{
    if s.len() > 0 && s[0] != sep {
        1 + prefix_len(s.drop_first(), sep)
    } else {
        0
    }
}

/// `prefix_len(s, sep)` is the index of the first `sep` in `s`, or the
/// length of `s`.
pub proof fn lemma_prefix_len(s: Seq<char>, sep: char)
    ensures
        prefix_len(s, sep) <= s.len(),
        forall|k: int| 0 <= k < prefix_len(s, sep) ==> #[trigger] s[k] != sep,
        prefix_len(s, sep) < s.len() ==> s[prefix_len(s, sep) as int] == sep,
    decreases s.len(),
{
    if s.len() > 0 && s[0] != sep {
        let t = s.drop_first();
        lemma_prefix_len(t, sep);
        assert forall|k: int| 0 <= k < prefix_len(s, sep) implies #[trigger] s[k] != sep by {
            if k > 0 {
                assert(s[k] == t[k - 1]);
            }
        }
        if prefix_len(s, sep) < s.len() {
            assert(s[prefix_len(s, sep) as int] == t[prefix_len(t, sep) as int]);
        }
    }
}

/// The index of the first `sep` determines `prefix_len`.
pub proof fn lemma_prefix_len_is(s: Seq<char>, sep: char, n: int)
    requires
        0 <= n <= s.len(),
        forall|k: int| 0 <= k < n ==> #[trigger] s[k] != sep,
        n < s.len() ==> s[n] == sep,
    ensures
        prefix_len(s, sep) == n,
    decreases s.len(),
{
    if n > 0 {
        let t = s.drop_first();
        assert forall|k: int| 0 <= k < n - 1 implies #[trigger] t[k] != sep by {
            assert(t[k] == s[k + 1]);
        }
        lemma_prefix_len_is(t, sep, n - 1);
    }
}

/// The index of the first `sep` at or after `from`, or the length of `chars`.
pub(crate) fn find_char(chars: &[char], from: usize, sep: char) -> (end: usize)
    requires
        from <= chars.len(),
    ensures
        from <= end <= chars.len(),
        end - from == prefix_len(chars@.skip(from as int), sep),
{
    let mut end: usize = from;
    while end < chars.len() && chars[end] != sep
        invariant
            from <= end <= chars.len(),
            forall|k: int| from <= k < end ==> #[trigger] chars@[k] != sep,
        decreases chars.len() - end,
    {
        end += 1;
    }
    proof {
        lemma_prefix_len_is(chars@.skip(from as int), sep, end - from);
    }
    end
}

/// `l` without the carriage return that it ends in, if it ends in one.
pub open spec fn strip_cr(l: Seq<char>) -> Seq<char> {
    if l.len() > 0 && l.last() == '\r' {
        l.drop_last()
    } else {
        l
    }
}

/// The lines of `s`. A line ends at a line feed, or at the end of `s`; the
/// line feed is no part of it, nor is a carriage return directly before the
/// line feed. Nothing follows the last line feed of a text that ends in one.
pub open spec fn lines(s: Seq<char>) -> Seq<Seq<char>>
    decreases s.len(),
{
    if s.len() == 0 {
        Seq::empty()
    } else if prefix_len(s, '\n') >= s.len() {
        seq![s]
    } else {
        proof {
            lemma_prefix_len(s, '\n');
        }
        seq![strip_cr(s.take(prefix_len(s, '\n') as int))] + lines(
            s.skip(prefix_len(s, '\n') as int + 1),
        )
    }
}

/// A text without a line feed is its own only line.
pub proof fn lemma_lines_of_line(s: Seq<char>)
    requires
        s.len() > 0,
        forall|k: int| 0 <= k < s.len() ==> #[trigger] s[k] != '\n',
    ensures
        lines(s) == seq![s],
{
    lemma_prefix_len_is(s, '\n', s.len() as int);
}

/// Splits `chars` into its lines.
pub fn split_lines(chars: &[char]) -> (out: Vec<Vec<char>>)
    ensures
        views(out@) == lines(chars@),
{
    let mut out: Vec<Vec<char>> = Vec::new();
    let mut i: usize = 0;
    assert(chars@.skip(0) == chars@);
    assert(views(out@) + lines(chars@) == lines(chars@));
    while i < chars.len()
        invariant
            i <= chars.len(),
            lines(chars@) == views(out@) + lines(chars@.skip(i as int)),
        decreases chars.len() - i,
    {
        let ghost rest = chars@.skip(i as int);
        let ghost before = views(out@);
        let end = find_char(chars, i, '\n');
        assert(rest.take(end - i) == chars@.subrange(i as int, end as int));
        if end == chars.len() {
            let line = copy_range(chars, i, end);
            assert(rest.take(end - i) == rest);
            out.push(line);
            assert(views(out@) == before + seq![line@]);
            assert(chars@.skip(end as int).len() == 0);
            i = end;
        } else {
            let stop = if end > i && chars[end - 1] == '\r' {
                end - 1
            } else {
                end
            };
            let line = copy_range(chars, i, stop);
            assert(line@ == strip_cr(chars@.subrange(i as int, end as int)));
            assert(rest.skip(end - i + 1) == chars@.skip(end + 1));
            out.push(line);
            assert(views(out@) == before + seq![line@]);
            i = end + 1;
        }
    }
    assert(chars@.skip(i as int).len() == 0);
    out
}

/// Appends the characters `chars` to `s`.
pub fn push_chars(s: &mut String, chars: &[char])
    ensures
        final(s)@ == old(s)@ + chars@,
{
    let mut i: usize = 0;
    assert(chars@.take(0) == Seq::<char>::empty());
    assert(s@ + Seq::<char>::empty() == s@);
    while i < chars.len()
        invariant
            i <= chars.len(),
            s@ == old(s)@ + chars@.take(i as int),
        decreases chars.len() - i,
    {
        s.push(chars[i]);
        assert(chars@.take(i + 1) == chars@.take(i as int).push(chars@[i as int]));
        i += 1;
    }
    assert(chars@.take(i as int) == chars@);
}

/// The texts `parts`, in order, with one `sep` between each two neighbours.
pub open spec fn join(parts: Seq<Seq<char>>, sep: char) -> Seq<char>
    decreases parts.len(),
{
    if parts.len() == 0 {
        Seq::empty()
    } else if parts.len() == 1 {
        parts[0]
    } else {
        join(parts.drop_last(), sep) + seq![sep] + parts.last()
    }
}

/// One more part adds a separator and the part; the first part adds itself.
pub proof fn lemma_join_push(parts: Seq<Seq<char>>, sep: char, part: Seq<char>)
    ensures
        join(parts.push(part), sep) == if parts.len() == 0 {
            part
        } else {
            join(parts, sep) + seq![sep] + part
        },
{
    assert(parts.push(part).drop_last() == parts);
}

/// Joined fields hold no separator but the one that joins them.
pub proof fn lemma_join_chars(parts: Seq<Seq<char>>, sep: char)
    requires
        forall|k: int| 0 <= k < parts.len() ==> is_token(#[trigger] parts[k]),
    ensures
        forall|k: int|
            0 <= k < join(parts, sep).len() ==> {
                let c = #[trigger] join(parts, sep)[k];
                c == sep || !is_space(c)
            },
        parts.len() > 0 ==> join(parts, sep).len() > 0,
    decreases parts.len(),
{
    if parts.len() > 1 {
        let init = parts.drop_last();
        assert forall|k: int| 0 <= k < init.len() implies is_token(#[trigger] init[k]) by {
            assert(init[k] == parts[k]);
        }
        lemma_join_chars(init, sep);
        let left = join(init, sep);
        let whole = join(parts, sep);
        assert(is_token(parts.last()));
        assert forall|k: int| 0 <= k < whole.len() implies {
            let c = #[trigger] whole[k];
            c == sep || !is_space(c)
        } by {
            if k < left.len() {
                assert(whole[k] == left[k]);
            } else if k > left.len() {
                assert(whole[k] == parts.last()[k - left.len() - 1]);
            }
        }
    } else if parts.len() == 1 {
        assert(is_token(parts[0]));
    }
}

/// Joins the fields `toks[from..to]` with `sep`.
pub(crate) fn join_range(toks: &Vec<Vec<char>>, from: usize, to: usize, sep: char) -> (r: String)
    requires
        from <= to <= toks.len(),
    ensures
        r@ == join(views(toks@).subrange(from as int, to as int), sep),
{
    let mut r = String::new();
    let ghost parts = views(toks@).subrange(from as int, to as int);
    let mut i: usize = from;
    assert(parts.take(0).len() == 0);
    while i < to
        invariant
            from <= i <= to <= toks.len(),
            parts == views(toks@).subrange(from as int, to as int),
            r@ == join(parts.take(i - from), sep),
        decreases to - i,
    {
        let ghost done = parts.take(i - from);
        let ghost next = parts.take(i - from + 1);
        assert(next.drop_last() == done);
        assert(next.last() == toks@[i as int]@);
        if i > from {
            r.push(sep);
        } else {
            assert(done.len() == 0);
            assert(r@.len() == 0);
            assert(r@ + toks@[i as int]@ == toks@[i as int]@);
        }
        push_chars(&mut r, toks[i].as_slice());
        i += 1;
    }
    assert(parts.take(i - from) == parts);
    r
}

/// A field: a text that is not empty and holds no separator.
pub open spec fn is_token(t: Seq<char>) -> bool {
    t.len() > 0 && forall|k: int| 0 <= k < t.len() ==> !is_space(#[trigger] t[k])
}

/// A field by itself is its own only field.
pub proof fn lemma_tokens_of_token(t: Seq<char>)
    requires
        is_token(t),
    ensures
        tokens(t) == seq![t],
{
    lemma_token_len_is(t, t.len() as int);
    assert(t.take(t.len() as int) == t);
    assert(tokens(t.skip(t.len() as int)) == Seq::<Seq<char>>::empty());
}

/// A separator between two texts keeps their fields apart.
pub proof fn lemma_tokens_concat(a: Seq<char>, sep: char, b: Seq<char>)
    requires
        is_space(sep),
    ensures
        tokens(a + seq![sep] + b) == tokens(a) + tokens(b),
    decreases a.len(),
{
    let whole = a + seq![sep] + b;
    if a.len() == 0 {
        assert(whole.drop_first() == b);
        assert(tokens(a) + tokens(b) == tokens(b));
    } else if is_space(a[0]) {
        assert(whole.drop_first() == a.drop_first() + seq![sep] + b);
        lemma_tokens_concat(a.drop_first(), sep, b);
    } else {
        let n = token_len(a) as int;
        lemma_token_len(a);
        assert forall|k: int| 0 <= k < n implies !is_space(#[trigger] whole[k]) by {
            assert(whole[k] == a[k]);
        }
        assert(is_space(whole[n])) by {
            if n < a.len() {
                assert(whole[n] == a[n]);
            }
        }
        lemma_token_len_is(whole, n);
        assert(whole.take(n) == a.take(n));
        assert(whole.skip(n) == a.skip(n) + seq![sep] + b);
        lemma_tokens_concat(a.skip(n), sep, b);
        assert(tokens(a) == seq![a.take(n)] + tokens(a.skip(n)));
        assert(tokens(whole) == seq![whole.take(n)] + tokens(whole.skip(n)));
    }
}

/// Fields that are joined with a separator split into the same fields again.
pub proof fn lemma_tokens_of_join(parts: Seq<Seq<char>>, sep: char)
    requires
        is_space(sep),
        forall|k: int| 0 <= k < parts.len() ==> is_token(#[trigger] parts[k]),
    ensures
        tokens(join(parts, sep)) == parts,
    decreases parts.len(),
{
    if parts.len() == 0 {
    } else if parts.len() == 1 {
        lemma_tokens_of_token(parts[0]);
    } else {
        let init = parts.drop_last();
        assert forall|k: int| 0 <= k < init.len() implies is_token(#[trigger] init[k]) by {
            assert(init[k] == parts[k]);
        }
        lemma_tokens_of_join(init, sep);
        lemma_tokens_concat(join(init, sep), sep, parts.last());
        lemma_tokens_of_token(parts.last());
        assert(init + seq![parts.last()] == parts);
    }
}

/// Every field of a text is a field: not empty, and free of separators.
pub proof fn lemma_tokens_are_tokens(s: Seq<char>)
    ensures
        forall|k: int| 0 <= k < tokens(s).len() ==> is_token(#[trigger] tokens(s)[k]),
    decreases s.len(),
{
    if s.len() == 0 {
        assert(tokens(s).len() == 0);
    } else if is_space(s[0]) {
        lemma_tokens_are_tokens(s.drop_first());
        assert(tokens(s) == tokens(s.drop_first()));
    } else {
        let n = token_len(s) as int;
        lemma_token_len(s);
        lemma_tokens_are_tokens(s.skip(n));
        assert(is_token(s.take(n))) by {
            assert forall|k: int| 0 <= k < n implies !is_space(#[trigger] s.take(n)[k]) by {
                assert(s.take(n)[k] == s[k]);
            }
        }
        assert forall|k: int| 0 <= k < tokens(s).len() implies is_token(
            #[trigger] tokens(s)[k],
        ) by {
            if k > 0 {
                assert(tokens(s)[k] == tokens(s.skip(n))[k - 1]);
            }
        }
    }
}

/// Whether `hay` begins with `prefix`.
pub fn starts_with(hay: &[char], prefix: &[char]) -> (r: bool)
    ensures
        r == prefix@.is_prefix_of(hay@),
{
    if prefix.len() > hay.len() {
        return false;
    }
    let mut i: usize = 0;
    while i < prefix.len()
        invariant
            i <= prefix.len() <= hay.len(),
            forall|k: int| 0 <= k < i ==> hay@[k] == prefix@[k],
        decreases prefix.len() - i,
    {
        if hay[i] != prefix[i] {
            assert(hay@.subrange(0, prefix@.len() as int)[i as int] != prefix@[i as int]);
            return false;
        }
        i += 1;
    }
    assert(hay@.subrange(0, prefix@.len() as int) == prefix@);
    true
}

/// What follows `prefix` in `s`, where `s` begins with it.
pub open spec fn strip_prefix(s: Seq<char>, prefix: Seq<char>) -> Option<Seq<char>> {
    if prefix.is_prefix_of(s) {
        Some(s.skip(prefix.len() as int))
    } else {
        None
    }
}

/// Whether `a` and `b` hold the same characters.
pub fn same_chars(a: &[char], b: &[char]) -> (r: bool)
    ensures
        r == (a@ == b@),
{
    if a.len() != b.len() {
        return false;
    }
    let mut i: usize = 0;
    while i < a.len()
        invariant
            i <= a.len() == b.len(),
            forall|k: int| 0 <= k < i ==> a@[k] == b@[k],
        decreases a.len() - i,
    {
        if a[i] != b[i] {
            return false;
        }
        i += 1;
    }
    assert(a@ =~= b@);
    true
}

/// Whether `needle` stands somewhere in `hay`.
pub open spec fn occurs_in(needle: Seq<char>, hay: Seq<char>) -> bool {
    exists|i: int| 0 <= i <= hay.len() && needle.is_prefix_of(#[trigger] hay.skip(i))
}

/// Whether `needle` stands somewhere in `hay`.
pub fn contains(hay: &[char], needle: &[char]) -> (r: bool)
    ensures
        r == occurs_in(needle@, hay@),
{
    let mut i: usize = 0;
    loop
        invariant
            i <= hay.len(),
            forall|k: int| 0 <= k < i ==> !needle@.is_prefix_of(#[trigger] hay@.skip(k)),
        decreases hay.len() - i,
    {
        let rest = vstd::slice::slice_subrange(hay, i, hay.len());
        assert(rest@ == hay@.skip(i as int));
        if starts_with(rest, needle) {
            return true;
        }
        if i == hay.len() {
            return false;
        }
        i += 1;
    }
}

} // verus!
