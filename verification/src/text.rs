//! Character-level string helpers with exact specifications.
use vstd::prelude::*;

verus! {

/// `String::push` appends one character to the end of the string.
pub assume_specification[ String::push ](s: &mut String, ch: char)
    ensures
        final(s)@ == old(s)@.push(ch),
;

/// The characters of `s`, in order.
pub fn chars_of(s: &str) -> (v: Vec<char>)
    ensures
        v@ == s@,
{
    let mut v: Vec<char> = Vec::new();
    for c in it: s.chars()
        invariant
            v@ == it.seq().take(it.index()),
            it.seq() == s@,
    {
        v.push(c);
    }
    v
}

/// Appends `chars[from..to]` to `out`.
pub fn push_range(out: &mut String, chars: &Vec<char>, from: usize, to: usize)
    requires
        from <= to <= chars@.len(),
    ensures
        final(out)@ == old(out)@ + chars@.subrange(from as int, to as int),
{
    let mut k = from;
    while k < to
        invariant
            from <= k <= to <= chars@.len(),
            out@ == old(out)@ + chars@.subrange(from as int, k as int),
        decreases to - k,
    {
        out.push(chars[k]);
        assert(chars@.subrange(from as int, (k + 1) as int) =~= chars@.subrange(
            from as int,
            k as int,
        ).push(chars@[k as int]));
        k = k + 1;
    }
}

/// A string holding `chars[from..to]`.
pub fn string_of_range(chars: &Vec<char>, from: usize, to: usize) -> (s: String)
    requires
        from <= to <= chars@.len(),
    ensures
        s@ == chars@.subrange(from as int, to as int),
{
    let mut s = String::new();
    push_range(&mut s, chars, from, to);
    assert(Seq::<char>::empty() + chars@.subrange(from as int, to as int) =~= chars@.subrange(
        from as int,
        to as int,
    ));
    s
}

/// The Unicode `White_Space` property, the set that `char::is_whitespace`
/// and `str::trim` go by.
pub open spec fn is_white_space(c: char) -> bool {
    let u = c as u32;
    ||| 0x09 <= u <= 0x0d
    ||| u == 0x20
    ||| u == 0x85
    ||| u == 0xa0
    ||| u == 0x1680
    ||| 0x2000 <= u <= 0x200a
    ||| u == 0x2028
    ||| u == 0x2029
    ||| u == 0x202f
    ||| u == 0x205f
    ||| u == 0x3000
}

/// Whether `c` has the Unicode `White_Space` property.
pub fn white_space(c: char) -> (b: bool)
    ensures
        b == is_white_space(c),
{
    let u = c as u32;
    (0x09 <= u && u <= 0x0d) || u == 0x20 || u == 0x85 || u == 0xa0 || u == 0x1680 || (0x2000
        <= u && u <= 0x200a) || u == 0x2028 || u == 0x2029 || u == 0x202f || u == 0x205f || u
        == 0x3000
}

/// `s` without its leading white space.
pub open spec fn trim_start(s: Seq<char>) -> Seq<char>
    decreases s.len(),
{
    if s.len() > 0 && is_white_space(s[0]) {
        trim_start(s.drop_first())
    } else {
        s
    }
}

/// `s` without its trailing white space.
pub open spec fn trim_end(s: Seq<char>) -> Seq<char>
    decreases s.len(),
{
    if s.len() > 0 && is_white_space(s.last()) {
        trim_end(s.drop_last())
    } else {
        s
    }
}

/// `s` without leading and trailing white space.
pub open spec fn trimmed(s: Seq<char>) -> Seq<char> {
    trim_end(trim_start(s))
}

/// `s` with leading and trailing white space removed, as `str::trim` does.
pub fn trim(s: &str) -> (r: String)
    ensures
        r@ == trimmed(s@),
{
    let chars = chars_of(s);
    let n = chars.len();
    let mut i: usize = 0;
    assert(s@.subrange(0, n as int) =~= s@);
    while i < n && white_space(chars[i])
        invariant
            i <= n == chars@.len(),
            chars@ == s@,
            trim_start(s@) == trim_start(s@.subrange(i as int, n as int)),
        decreases n - i,
    {
        assert(s@.subrange(i as int, n as int).drop_first() =~= s@.subrange(
            (i + 1) as int,
            n as int,
        ));
        i = i + 1;
    }
    assert(trim_start(s@) == s@.subrange(i as int, n as int));
    let mut j: usize = n;
    while j > i && white_space(chars[j - 1])
        invariant
            i <= j <= n == chars@.len(),
            chars@ == s@,
            trim_end(s@.subrange(i as int, n as int)) == trim_end(
                s@.subrange(i as int, j as int),
            ),
        decreases j,
    {
        assert(s@.subrange(i as int, j as int).drop_last() =~= s@.subrange(
            i as int,
            (j - 1) as int,
        ));
        j = j - 1;
    }
    string_of_range(&chars, i, j)
}

/// The part of `s` after the last `sep`; all of `s` when it holds none.
/// This is what `s.split(sep).last()` yields.
pub open spec fn after_last(s: Seq<char>, sep: char) -> Seq<char>
    decreases s.len(),
{
    if s.len() == 0 {
        s
    } else if s.last() == sep {
        Seq::empty()
    } else {
        after_last(s.drop_last(), sep).push(s.last())
    }
}

/// The last piece of `s` split at `sep`.
pub fn last_piece(s: &str, sep: char) -> (r: String)
    ensures
        r@ == after_last(s@, sep),
{
    let chars = chars_of(s);
    let n = chars.len();
    let mut k: usize = n;
    assert(s@.subrange(0, n as int) =~= s@);
    assert(s@.subrange(n as int, n as int) =~= Seq::<char>::empty());
    while k > 0 && chars[k - 1] != sep
        invariant
            k <= n == chars@.len(),
            chars@ == s@,
            after_last(s@, sep) == after_last(s@.subrange(0, k as int), sep) + s@.subrange(
                k as int,
                n as int,
            ),
        decreases k,
    {
        let ghost pre = s@.subrange(0, k as int);
        assert(pre.drop_last() =~= s@.subrange(0, (k - 1) as int));
        assert(s@.subrange((k - 1) as int, n as int) =~= seq![pre.last()] + s@.subrange(
            k as int,
            n as int,
        ));
        assert(after_last(pre, sep) == after_last(s@.subrange(0, (k - 1) as int), sep).push(
            pre.last(),
        ));
        assert(after_last(s@.subrange(0, (k - 1) as int), sep).push(pre.last()) + s@.subrange(
            k as int,
            n as int,
        ) =~= after_last(s@.subrange(0, (k - 1) as int), sep) + s@.subrange(
            (k - 1) as int,
            n as int,
        ));
        k = k - 1;
    }
    assert(after_last(s@.subrange(0, k as int), sep) =~= Seq::<char>::empty());
    assert(Seq::<char>::empty() + s@.subrange(k as int, n as int) =~= s@.subrange(
        k as int,
        n as int,
    ));
    string_of_range(&chars, k, n)
}

/// `needle` stands in `hay` starting at index `i`.
pub open spec fn occurs_at(hay: Seq<char>, needle: Seq<char>, i: int) -> bool {
    &&& 0 <= i
    &&& i + needle.len() <= hay.len()
    &&& hay.subrange(i, i + needle.len()) == needle
}

/// `needle` is a substring of `hay`.
pub open spec fn contains_seq(hay: Seq<char>, needle: Seq<char>) -> bool {
    exists|i: int| occurs_at(hay, needle, i)
}

/// Whether `needle` is a substring of `hay`, as `str::contains` answers.
pub fn contains_chars(hay: &Vec<char>, needle: &Vec<char>) -> (b: bool)
    ensures
        b == contains_seq(hay@, needle@),
{
    let h = hay.len();
    let n = needle.len();
    if n > h {
        assert forall|i: int| !occurs_at(hay@, needle@, i) by {}
        return false;
    }
    let mut i: usize = 0;
    while i <= h - n
        invariant
            h == hay@.len(),
            n == needle@.len(),
            n <= h,
            i <= h - n + 1,
            forall|j: int| 0 <= j < i ==> !occurs_at(hay@, needle@, j),
        decreases h - n + 1 - i,
    {
        let mut k: usize = 0;
        while k < n && hay[i + k] == needle[k]
            invariant
                h == hay@.len(),
                n == needle@.len(),
                i + n <= h,
                k <= n,
                forall|m: int| 0 <= m < k ==> hay@[i + m] == needle@[m],
            decreases n - k,
        {
            k = k + 1;
        }
        if k == n {
            assert(hay@.subrange(i as int, i + n) =~= needle@);
            assert(occurs_at(hay@, needle@, i as int));
            return true;
        }
        assert(hay@.subrange(i as int, i + n)[k as int] != needle@[k as int]);
        i = i + 1;
    }
    assert forall|j: int| !occurs_at(hay@, needle@, j) by {
        if 0 <= j < i {
        }
    }
    false
}

/// A substring stays a substring when more text follows.
pub proof fn lemma_contains_extend(hay: Seq<char>, needle: Seq<char>, more: Seq<char>)
    requires
        contains_seq(hay, needle),
    ensures
        contains_seq(hay + more, needle),
{
    let i = choose|i: int| occurs_at(hay, needle, i);
    assert((hay + more).subrange(i, i + needle.len()) =~= hay.subrange(i, i + needle.len()));
    assert(occurs_at(hay + more, needle, i));
}

/// A string contains each of its pieces.
pub proof fn lemma_contains_piece(pre: Seq<char>, needle: Seq<char>, post: Seq<char>)
    ensures
        contains_seq(pre + needle + post, needle),
{
    let hay = pre + needle + post;
    assert(hay.subrange(pre.len() as int, (pre.len() + needle.len()) as int) =~= needle);
    assert(occurs_at(hay, needle, pre.len() as int));
}

/// The pieces joined with `sep` between each two, as `join` on a slice of
/// strings does.
pub open spec fn joined(parts: Seq<Seq<char>>, sep: Seq<char>) -> Seq<char>
    decreases parts.len(),
{
    if parts.len() == 0 {
        Seq::empty()
    } else if parts.len() == 1 {
        parts[0]
    } else {
        joined(parts.drop_last(), sep) + sep + parts.last()
    }
}

/// The strings of `parts` joined with `sep`.
pub fn join(parts: &Vec<String>, sep: &str) -> (r: String)
    ensures
        r@ == joined(parts.deep_view(), sep@),
{
    let mut r = String::new();
    let ghost dv = parts.deep_view();
    let mut i: usize = 0;
    assert(dv.take(0) =~= Seq::<Seq<char>>::empty());
    while i < parts.len()
        invariant
            i <= parts@.len(),
            dv == parts.deep_view(),
            dv.len() == parts@.len(),
            r@ == joined(dv.take(i as int), sep@),
        decreases parts@.len() - i,
    {
        assert(dv.take((i + 1) as int).drop_last() =~= dv.take(i as int));
        assert(dv[i as int] == parts@[i as int]@);
        if i != 0 {
            r.append(sep);
        }
        r.append(parts[i].as_str());
        if i == 0 {
            assert(r@ =~= joined(dv.take(1), sep@));
        }
        i = i + 1;
    }
    assert(dv.take(parts@.len() as int) =~= dv);
    r
}

/// The character of the decimal digit `d`.
pub open spec fn digit_char(d: nat) -> char {
    ((d + 48) as u32) as char
}

/// The decimal numeral of `n`, as `Display` writes an integer.
pub open spec fn decimal(n: nat) -> Seq<char>
    decreases n,
{
    if n < 10 {
        seq![digit_char(n)]
    } else {
        decimal(n / 10).push(digit_char(n % 10))
    }
}

/// Appends the decimal numeral of `n` to `out`.
pub fn push_decimal(out: &mut String, n: usize)
    ensures
        final(out)@ == old(out)@ + decimal(n as nat),
    decreases n,
{
    if n >= 10 {
        push_decimal(out, n / 10);
    }
    let d = (n % 10) as u32;
    let c = char_from_digit(d);
    out.push(c);
    assert(old(out)@ + decimal(n as nat) =~= (if n >= 10 {
        old(out)@ + decimal((n / 10) as nat)
    } else {
        old(out)@
    }).push(c));
}

/// The character of a decimal digit.
fn char_from_digit(d: u32) -> (c: char)
    requires
        d < 10,
    ensures
        c == digit_char(d as nat),
{
    if d == 0 { '0' }
    else if d == 1 { '1' }
    else if d == 2 { '2' }
    else if d == 3 { '3' }
    else if d == 4 { '4' }
    else if d == 5 { '5' }
    else if d == 6 { '6' }
    else if d == 7 { '7' }
    else if d == 8 { '8' }
    else { '9' }
}

/// Leading white space is dropped: `trim_start(s)` is `s` from its first
/// character that is not white space on.
pub proof fn lemma_trim_start_bounds(s: Seq<char>) -> (i: int)
    ensures
        0 <= i <= s.len(),
        trim_start(s) == s.subrange(i, s.len() as int),
        forall|k: int| 0 <= k < i ==> is_white_space(#[trigger] s[k]),
        i < s.len() ==> !is_white_space(s[i]),
    decreases s.len(),
{
    if s.len() > 0 && is_white_space(s[0]) {
        let j = lemma_trim_start_bounds(s.drop_first());
        assert(s.drop_first().subrange(j, s.len() - 1) =~= s.subrange(j + 1, s.len() as int));
        assert forall|k: int| 0 <= k < j + 1 implies is_white_space(#[trigger] s[k]) by {
            if k > 0 {
                assert(s[k] == s.drop_first()[k - 1]);
            }
        }
        j + 1
    } else {
        assert(s.subrange(0, s.len() as int) =~= s);
        0
    }
}

/// Trailing white space is dropped: `trim_end(s)` is `s` up to its last
/// character that is not white space.
pub proof fn lemma_trim_end_bounds(s: Seq<char>) -> (j: int)
    ensures
        0 <= j <= s.len(),
        trim_end(s) == s.subrange(0, j),
        forall|k: int| j <= k < s.len() ==> is_white_space(#[trigger] s[k]),
        j > 0 ==> !is_white_space(s[j - 1]),
    decreases s.len(),
{
    if s.len() > 0 && is_white_space(s.last()) {
        let j = lemma_trim_end_bounds(s.drop_last());
        assert(s.drop_last().subrange(0, j) =~= s.subrange(0, j));
        assert forall|k: int| j <= k < s.len() implies is_white_space(#[trigger] s[k]) by {
            if k < s.len() - 1 {
                assert(s[k] == s.drop_last()[k]);
            }
        }
        j
    } else {
        assert(s.subrange(0, s.len() as int) =~= s);
        s.len() as int
    }
}

/// Trimming keeps the middle of `s`: the result is `s[i..j]`, everything
/// before `i` and from `j` on is white space, and the result neither starts
/// nor ends with white space.
pub proof fn lemma_trimmed_bounds(s: Seq<char>) -> (r: (int, int))
    ensures
        0 <= r.0 <= r.1 <= s.len(),
        trimmed(s) == s.subrange(r.0, r.1),
        forall|k: int| 0 <= k < r.0 ==> is_white_space(#[trigger] s[k]),
        forall|k: int| r.1 <= k < s.len() ==> is_white_space(#[trigger] s[k]),
        r.0 < r.1 ==> !is_white_space(s[r.0]) && !is_white_space(s[r.1 - 1]),
{
    let i = lemma_trim_start_bounds(s);
    let rest = s.subrange(i, s.len() as int);
    let j = lemma_trim_end_bounds(rest);
    assert(rest.subrange(0, j) =~= s.subrange(i, i + j));
    assert forall|k: int| i + j <= k < s.len() implies is_white_space(#[trigger] s[k]) by {
        assert(s[k] == rest[k - i]);
    }
    if j > 0 {
        assert(s[i] == rest[0]);
        assert(s[i + j - 1] == rest[j - 1]);
    }
    (i, i + j)
}

/// The last piece of `s` at `sep` is the end of `s` after its last `sep`:
/// `s[k..]`, with `sep` just before `k` unless `k` is 0, and no `sep` in it.
pub proof fn lemma_after_last_bounds(s: Seq<char>, sep: char) -> (k: int)
    ensures
        0 <= k <= s.len(),
        after_last(s, sep) == s.subrange(k, s.len() as int),
        k > 0 ==> s[k - 1] == sep,
        forall|m: int| k <= m < s.len() ==> #[trigger] s[m] != sep,
    decreases s.len(),
{
    if s.len() == 0 {
        assert(s.subrange(0, 0) =~= s);
        0
    } else if s.last() == sep {
        assert(s.subrange(s.len() as int, s.len() as int) =~= Seq::<char>::empty());
        s.len() as int
    } else {
        let k = lemma_after_last_bounds(s.drop_last(), sep);
        assert(s.drop_last().subrange(k, s.len() - 1).push(s.last()) =~= s.subrange(
            k,
            s.len() as int,
        ));
        assert forall|m: int| k <= m < s.len() implies #[trigger] s[m] != sep by {
            if m < s.len() - 1 {
                assert(s[m] == s.drop_last()[m]);
            }
        }
        if k > 0 {
            assert(s[k - 1] == s.drop_last()[k - 1]);
        }
        k
    }
}

/// A substring of a piece is a substring of the whole.
pub proof fn lemma_contains_within(pre: Seq<char>, mid: Seq<char>, post: Seq<char>, needle: Seq<char>)
    requires
        contains_seq(mid, needle),
    ensures
        contains_seq(pre + mid + post, needle),
{
    let i = choose|i: int| occurs_at(mid, needle, i);
    let hay = pre + mid + post;
    assert(hay.subrange(pre.len() + i, pre.len() + i + needle.len()) =~= mid.subrange(
        i,
        i + needle.len(),
    ));
    assert(occurs_at(hay, needle, pre.len() + i));
}

/// Joining keeps every piece: each part occurs in the joined text.
pub proof fn lemma_joined_holds_parts(parts: Seq<Seq<char>>, sep: Seq<char>)
    ensures
        forall|i: int| 0 <= i < parts.len() ==> contains_seq(joined(parts, sep), #[trigger] parts[i]),
    decreases parts.len(),
{
    if parts.len() == 1 {
        lemma_contains_piece(Seq::empty(), parts[0], Seq::empty());
        assert(Seq::<char>::empty() + parts[0] + Seq::<char>::empty() =~= parts[0]);
    } else if parts.len() > 1 {
        let rest = parts.drop_last();
        lemma_joined_holds_parts(rest, sep);
        assert forall|i: int| 0 <= i < parts.len() implies contains_seq(
            joined(parts, sep),
            #[trigger] parts[i],
        ) by {
            if i < parts.len() - 1 {
                assert(parts[i] == rest[i]);
                lemma_contains_extend(joined(rest, sep), rest[i], sep + parts.last());
                assert(joined(rest, sep) + (sep + parts.last()) =~= joined(parts, sep));
            } else {
                lemma_contains_piece(joined(rest, sep) + sep, parts.last(), Seq::empty());
                assert(joined(rest, sep) + sep + parts.last() + Seq::<char>::empty() =~= joined(
                    parts,
                    sep,
                ));
            }
        }
    }
}

/// Joining adds exactly one separator between two neighbouring parts: the
/// joined text of `parts` followed by `x` is the joined text of `parts`,
/// the separator and `x`.
pub proof fn lemma_joined_push(parts: Seq<Seq<char>>, sep: Seq<char>, x: Seq<char>)
    requires
        parts.len() > 0,
    ensures
        joined(parts.push(x), sep) == joined(parts, sep) + sep + x,
{
    assert(parts.push(x).drop_last() =~= parts);
}

/// The numeric value of a text of decimal digits.
pub open spec fn digits_value(s: Seq<char>) -> nat
    decreases s.len(),
{
    if s.len() == 0 {
        0
    } else {
        digits_value(s.drop_last()) * 10 + ((s.last() as u32) - 48) as nat
    }
}

/// A decimal digit character.
pub open spec fn is_digit(c: char) -> bool {
    48 <= (c as u32) <= 57
}

/// The decimal numeral of `n` is made of digits, reads back as `n`, and
/// starts with a zero only when it is `0`.
pub proof fn lemma_decimal_reads_back(n: nat)
    ensures
        decimal(n).len() > 0,
        forall|i: int| 0 <= i < decimal(n).len() ==> is_digit(#[trigger] decimal(n)[i]),
        digits_value(decimal(n)) == n,
        decimal(n)[0] == '0' ==> n == 0,
    decreases n,
{
    if n >= 10 {
        lemma_decimal_reads_back(n / 10);
        let d = decimal(n / 10);
        assert(decimal(n) == d.push(digit_char(n % 10)));
        assert(decimal(n).drop_last() =~= d);
        assert forall|i: int| 0 <= i < decimal(n).len() implies is_digit(#[trigger] decimal(n)[i]) by {
            if i < d.len() {
                assert(decimal(n)[i] == d[i]);
            }
        }
        assert(decimal(n)[0] == d[0]);
        let r = (n % 10) as nat;
        assert((digit_char(r) as u32) == r + 48);
        assert(decimal(n).last() == digit_char(r));
        assert(digits_value(decimal(n)) == digits_value(d) * 10 + r);
        assert(n == (n / 10) * 10 + r);
    } else {
        assert(decimal(n).drop_last() =~= Seq::<char>::empty());
        assert((digit_char(n) as u32) == n + 48);
        assert(digits_value(decimal(n)) == digits_value(Seq::<char>::empty()) * 10 + n);
    }
}

/// The total length of the parts.
pub open spec fn total_len(parts: Seq<Seq<char>>) -> nat
    decreases parts.len(),
{
    if parts.len() == 0 {
        0
    } else {
        total_len(parts.drop_last()) + parts.last().len()
    }
}

/// Joining adds nothing but one separator between each two neighbouring
/// parts: the joined text is as long as the parts and `n - 1` separators.
pub proof fn lemma_joined_len(parts: Seq<Seq<char>>, sep: Seq<char>)
    ensures
        parts.len() > 0 ==> joined(parts, sep).len() == total_len(parts) + (parts.len() - 1)
            * sep.len(),
        parts.len() == 0 ==> joined(parts, sep).len() == 0,
    decreases parts.len(),
{
    if parts.len() > 1 {
        let rest = parts.drop_last();
        lemma_joined_len(rest, sep);
        let n = parts.len() as int;
        let l = sep.len() as int;
        assert((n - 1) * l == (n - 2) * l + l) by (nonlinear_arith);
        assert(rest.len() == n - 1);
        assert(joined(parts, sep) == joined(rest, sep) + sep + parts.last());
        assert(total_len(parts) == total_len(rest) + parts.last().len());
    } else if parts.len() == 1 {
        assert(parts.drop_last().len() == 0);
        let l = sep.len() as int;
        assert(0 * l == 0) by (nonlinear_arith);
        assert(total_len(parts) == total_len(parts.drop_last()) + parts.last().len());
    }
}

} // verus!
