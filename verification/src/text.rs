//! Character-level text handling shared by the parsers and printers.

use vstd::prelude::*;
use vstd::string::StrSliceExecFns;

verus! {

/// The pieces of `s` between occurrences of `sep`, as `str::split` with a
/// character pattern gives them: empty pieces included, one more piece than
/// there are separators.
pub open spec fn split_on(s: Seq<char>, sep: char) -> Seq<Seq<char>>
    decreases s.len(),
{
    if s.len() == 0 {
        seq![Seq::<char>::empty()]
    } else {
        let prev = split_on(s.drop_last(), sep);
        if s.last() == sep {
            prev.push(Seq::<char>::empty())
        } else {
            prev.update(prev.len() - 1, prev.last().push(s.last()))
        }
    }
}

/// `line` without one trailing carriage return.
pub open spec fn strip_cr(line: Seq<char>) -> Seq<char> {
    if line.len() > 0 && line.last() == '\r' {
        line.drop_last()
    } else {
        line
    }
}

/// The lines of `s` as `str::lines` gives them: split at `\n`, a `\r` just
/// before a `\n` dropped, and no empty last line after a final line ending.
pub open spec fn lines_of(s: Seq<char>) -> Seq<Seq<char>> {
    let pieces = split_on(s, '\n');
    let n: int = if s.len() == 0 || s.last() == '\n' {
        pieces.len() - 1
    } else {
        pieces.len() as int
    };
    Seq::new(
        n as nat,
        |i: int|
            if i < pieces.len() - 1 {
                strip_cr(pieces[i])
            } else {
                pieces[i]
            },
    )
}

/// There is always at least one piece; with no separator in `s` it is `s` itself.
pub proof fn lemma_split_on_basics(s: Seq<char>, sep: char)
    ensures
        split_on(s, sep).len() >= 1,
        !s.contains(sep) ==> split_on(s, sep) == seq![s],
        split_on(s, sep).len() == 1 ==> !s.contains(sep),
    decreases s.len(),
{
    if s.len() == 0 {
        assert(s =~= Seq::<char>::empty());
    } else {
        lemma_split_on_basics(s.drop_last(), sep);
        if !s.contains(sep) {
            assert(s[s.len() - 1] != sep);
            assert(!s.drop_last().contains(sep)) by {
                if s.drop_last().contains(sep) {
                    let k = choose|k: int| 0 <= k < s.drop_last().len() && s.drop_last()[k] == sep;
                    assert(s[k] == sep);
                }
            }
            assert(s.drop_last().push(s.last()) =~= s);
            assert(split_on(s, sep) =~= seq![s]);
        }
        if split_on(s, sep).len() == 1 {
            assert(s.last() != sep);
            assert(!s.contains(sep)) by {
                if s.contains(sep) {
                    let k = choose|k: int| 0 <= k < s.len() && s[k] == sep;
                    assert(s.drop_last()[k] == sep);
                }
            }
        }
    }
}

/// The character sequences held by a vector of character vectors.
pub open spec fn views(v: Seq<Vec<char>>) -> Seq<Seq<char>> {
    Seq::new(v.len(), |i: int| v[i]@)
}

/// The decimal digit `d` as a character.
pub open spec fn digit_char(d: nat) -> char {
    (48 + d) as char
}

/// The decimal notation of `n`, without leading zeros.
pub open spec fn decimal(n: nat) -> Seq<char>
    decreases n,
{
    if n < 10 {
        seq![digit_char(n)]
    } else {
        decimal(n / 10).push(digit_char(n % 10))
    }
}

/// The decimal notation of a signed integer, with a leading `-` when negative.
pub open spec fn signed_decimal(n: int) -> Seq<char> {
    if n < 0 {
        seq!['-'] + decimal((-n) as nat)
    } else {
        decimal(n as nat)
    }
}

/// The number that a text of decimal digits denotes.
pub open spec fn digits_value(s: Seq<char>) -> int
    decreases s.len(),
{
    if s.len() == 0 {
        0
    } else {
        digits_value(s.drop_last()) * 10 + (s.last() as int - 48)
    }
}

/// Law: the decimal notation of `n` is made of the digits `0` to `9`, has
/// no leading zero (it is `0` alone for zero), and denotes `n`.
pub proof fn law_decimal_denotes(n: nat)
    ensures
        decimal(n).len() >= 1,
        forall|i: int| 0 <= i < decimal(n).len() ==> '0' <= #[trigger] decimal(n)[i] && decimal(n)[i] <= '9',
        decimal(n)[0] == '0' ==> n == 0 && decimal(n).len() == 1,
        digits_value(decimal(n)) == n,
    decreases n,
{
    if n < 10 {
        assert(digit_char(n) as int == 48 + n);
        assert(decimal(n) == seq![digit_char(n)]);
        assert(seq![digit_char(n)].drop_last() =~= Seq::<char>::empty());
        assert(digits_value(Seq::<char>::empty()) == 0);
        assert(digits_value(decimal(n)) == 0 * 10 + (digit_char(n) as int - 48));
    } else {
        let q = n / 10;
        let r = n % 10;
        law_decimal_denotes(q);
        let d = decimal(q);
        assert(decimal(n) == d.push(digit_char(r)));
        assert(digit_char(r) as int == 48 + r);
        assert(d.push(digit_char(r)).drop_last() =~= d);
        assert forall|i: int| 0 <= i < decimal(n).len() implies '0' <= #[trigger] decimal(n)[i] && decimal(n)[i] <= '9' by {
            if i < d.len() {
                assert(decimal(n)[i] == d[i]);
            }
        }
        assert(decimal(n)[0] == d[0]);
        assert(n == q * 10 + r);
        assert(digits_value(decimal(n)) == digits_value(d) * 10 + (digit_char(r) as int - 48));
    }
}

/// The result of `str::to_lowercase` on a string with the characters `s`.
pub uninterp spec fn spec_to_lowercase(s: Seq<char>) -> Seq<char>;

/// Calls `str::to_lowercase`. Its result is Unicode lowercasing, which this
/// contract does not spell out: it only ties the result to the argument, as
/// the value of `spec_to_lowercase` on the argument's characters.
#[verifier::external_body]
pub(crate) fn to_lowercase(s: &str) -> (res: String)
    ensures
        res@ == spec_to_lowercase(s@),
{
    s.to_lowercase()
}

/// Whether every character of `s` is ASCII.
pub open spec fn is_ascii_text(s: Seq<char>) -> bool {
    forall|i: int| 0 <= i < s.len() ==> (#[trigger] s[i] as u32) < 128
}

/// The lowercase of an ASCII character: `A` to `Z` become `a` to `z`, every
/// other character stays.
pub open spec fn ascii_lower_char(c: char) -> char {
    if 'A' <= c && c <= 'Z' {
        ((c as u8) + 32) as u8 as char
    } else {
        c
    }
}

/// The lowercase of a text, as `str::to_lowercase` gives it: on ASCII text
/// each letter `A` to `Z` becomes `a` to `z` and nothing else changes; on
/// other text it is the full Unicode lowercasing, `spec_to_lowercase`.
pub open spec fn lowercase(s: Seq<char>) -> Seq<char> {
    if is_ascii_text(s) {
        Seq::new(s.len(), |i: int| ascii_lower_char(s[i]))
    } else {
        spec_to_lowercase(s)
    }
}

/// The lowercase of `s`, as `str::to_lowercase` gives it.
pub fn lowercase_str(s: &str) -> (res: String)
    ensures
        res@ == lowercase(s@),
{
    let cs = chars_of(s);
    let mut ascii = true;
    let mut i: usize = 0;
    while i < cs.len()
        invariant
            cs@ == s@,
            i <= cs.len(),
            ascii == forall|j: int| 0 <= j < i ==> (#[trigger] cs@[j] as u32) < 128,
        decreases cs.len() - i,
    {
        if (cs[i] as u32) >= 128 {
            ascii = false;
        }
        i = i + 1;
    }
    if !ascii {
        return to_lowercase(s);
    }
    let mut res = String::new();
    let mut k: usize = 0;
    while k < cs.len()
        invariant
            cs@ == s@,
            k <= cs.len(),
            res@ == Seq::new(k as nat, |j: int| ascii_lower_char(cs@[j])),
        decreases cs.len() - k,
    {
        let c = cs[k];
        let l = if 'A' <= c && c <= 'Z' {
            ((c as u8) + 32) as char
        } else {
            c
        };
        let ghost before = res@;
        push_char(&mut res, l);
        assert(res@ =~= Seq::new((k + 1) as nat, |j: int| ascii_lower_char(cs@[j])));
        k = k + 1;
    }
    res
}

/// Law: lowercasing leaves a text of ASCII characters without the letters
/// `A` to `Z` as it is, and otherwise changes, on ASCII text, exactly the
/// letters `A` to `Z`, each into its lowercase letter, keeping the length.
pub proof fn law_lowercase_ascii(s: Seq<char>)
    requires
        is_ascii_text(s),
    ensures
        lowercase(s).len() == s.len(),
        forall|i: int| 0 <= i < s.len() ==> {
            &&& ('A' <= #[trigger] s[i] && s[i] <= 'Z') ==> lowercase(s)[i] as u32 == s[i] as u32 + 32
            &&& !('A' <= s[i] && s[i] <= 'Z') ==> lowercase(s)[i] == s[i]
        },
        (forall|i: int| 0 <= i < s.len() ==> !('A' <= #[trigger] s[i] && s[i] <= 'Z')) ==> lowercase(s) == s,
{
    assert forall|i: int| 0 <= i < s.len() && 'A' <= #[trigger] s[i] && s[i] <= 'Z' implies lowercase(s)[i] as u32 == s[i] as u32 + 32 by {
        let c = s[i];
        assert((c as u8) as int == c as int);
    }
    if forall|i: int| 0 <= i < s.len() ==> !('A' <= #[trigger] s[i] && s[i] <= 'Z') {
        assert(lowercase(s) =~= s);
    }
}

/// Appends one character: calls `String::push`, which the standard library
/// documents as appending the given `char` to the end of the string.
#[verifier::external_body]
pub(crate) fn push_char(s: &mut String, c: char)
    ensures
        final(s)@ == old(s)@.push(c),
{
    s.push(c);
}

/// Appends the characters of `extra` to `s`.
pub fn push_chars(s: &mut String, extra: &[char])
    ensures
        final(s)@ == old(s)@ + extra@,
{
    let ghost start = s@;
    let mut i: usize = 0;
    while i < extra.len()
        invariant
            i <= extra.len(),
            s@ == start + extra@.take(i as int),
        decreases extra.len() - i,
    {
        push_char(s, extra[i]);
        assert(extra@.take(i as int).push(extra@[i as int]) =~= extra@.take(i + 1));
        i = i + 1;
    }
    assert(extra@.take(extra.len() as int) =~= extra@);
}

/// Appends the text of `extra` to `s`.
pub fn push_str(s: &mut String, extra: &str)
    ensures
        final(s)@ == old(s)@ + extra@,
{
    let chars = chars_of(extra);
    push_chars(s, chars.as_slice());
}

/// A string made of the characters of `v`.
pub fn string_of(v: &[char]) -> (res: String)
    ensures
        res@ == v@,
{
    let mut s = String::new();
    push_chars(&mut s, v);
    s
}

/// The characters of `s`, in order.
pub fn chars_of(s: &str) -> (res: Vec<char>)
    ensures
        res@ == s@,
{
    let mut res: Vec<char> = Vec::new();
    for c in it: s.chars()
        invariant
            res@ == it.seq().take(it.index() as int),
            it.seq() == s@,
    {
        res.push(c);
    }
    res
}

/// Whether the characters `v` spell exactly `s`.
pub fn chars_eq_str(v: &[char], s: &str) -> (res: bool)
    ensures
        res == (v@ == s@),
{
    let n = s.unicode_len();
    if n != v.len() {
        return false;
    }
    let mut i: usize = 0;
    while i < n
        invariant
            n == v@.len(),
            n == s@.len(),
            i <= n,
            forall|j: int| 0 <= j < i ==> v@[j] == s@[j],
        decreases n - i,
    {
        if v[i] != s.get_char(i) {
            return false;
        }
        i = i + 1;
    }
    assert(v@ =~= s@);
    true
}

/// Whether the characters `v` and `w` are the same.
pub fn chars_eq(v: &[char], w: &[char]) -> (res: bool)
    ensures
        res == (v@ == w@),
{
    if v.len() != w.len() {
        return false;
    }
    let mut i: usize = 0;
    while i < v.len()
        invariant
            v@.len() == w@.len(),
            i <= v@.len(),
            forall|j: int| 0 <= j < i ==> v@[j] == w@[j],
        decreases v.len() - i,
    {
        if v[i] != w[i] {
            return false;
        }
        i = i + 1;
    }
    assert(v@ =~= w@);
    true
}

/// The pieces of `v` between occurrences of `sep`.
pub fn split_chars(v: &[char], sep: char) -> (res: Vec<Vec<char>>)
    ensures
        views(res@) == split_on(v@, sep),
{
    let mut parts: Vec<Vec<char>> = Vec::new();
    let mut cur: Vec<char> = Vec::new();
    let mut i: usize = 0;
    while i < v.len()
        invariant
            i <= v@.len(),
            views(parts@).push(cur@) == split_on(v@.take(i as int), sep),
        decreases v.len() - i,
    {
        let c = v[i];
        let ghost prev = split_on(v@.take(i as int), sep);
        assert(v@.take(i + 1).drop_last() =~= v@.take(i as int));
        proof {
            lemma_split_on_basics(v@.take(i as int), sep);
        }
        if c == sep {
            parts.push(cur);
            cur = Vec::new();
            assert(views(parts@).push(cur@) =~= prev.push(Seq::<char>::empty()));
        } else {
            cur.push(c);
            assert(views(parts@).push(cur@) =~= prev.update(
                prev.len() - 1,
                prev.last().push(c),
            ));
        }
        i = i + 1;
    }
    assert(v@.take(v.len() as int) =~= v@);
    parts.push(cur);
    parts
}

/// `line` without one trailing carriage return.
fn strip_cr_chars(line: Vec<char>) -> (res: Vec<char>)
    ensures
        res@ == strip_cr(line@),
{
    let mut line = line;
    if line.len() > 0 && line[line.len() - 1] == '\r' {
        line.pop();
    }
    line
}

/// The lines of `v`, as `str::lines` splits a text.
pub fn lines_of_chars(v: &[char]) -> (res: Vec<Vec<char>>)
    ensures
        views(res@) == lines_of(v@),
{
    let mut pieces = split_chars(v, '\n');
    proof {
        lemma_split_on_basics(v@, '\n');
    }
    let ghost pv = views(pieces@);
    let total = pieces.len();
    let n: usize = if v.len() == 0 || v[v.len() - 1] == '\n' {
        total - 1
    } else {
        total
    };
    let mut res: Vec<Vec<char>> = Vec::new();
    let mut i: usize = 0;
    while i < n
        invariant
            n <= total,
            total == pv.len(),
            pv == split_on(v@, '\n'),
            n == lines_of(v@).len(),
            i <= n,
            views(pieces@) =~= pv.skip(i as int),
            pieces.len() == total - i,
            views(res@) =~= lines_of(v@).take(i as int),
        decreases n - i,
    {
        let ghost before = pieces@;
        assert(views(before)[0] == pv.skip(i as int)[0]);
        let p = pieces.remove(0);
        assert(p@ == pv[i as int]);
        assert(views(pieces@) =~= views(before).skip(1));
        let line = if i < total - 1 {
            strip_cr_chars(p)
        } else {
            p
        };
        assert(line@ == lines_of(v@)[i as int]);
        let ghost old_res = res@;
        res.push(line);
        assert(views(res@) =~= views(old_res).push(line@));
        assert(lines_of(v@).take(i + 1) =~= lines_of(v@).take(i as int).push(line@));
        i = i + 1;
        assert(views(pieces@) =~= pv.skip(i as int));
    }
    res
}

/// The digit `d` as a character.
fn digit(d: u64) -> (c: char)
    requires
        d < 10,
    ensures
        c == digit_char(d as nat),
{
    let b: u8 = 48 + d as u8;
    b as char
}

/// Appends the decimal notation of `n` to `s`.
pub fn push_decimal(s: &mut String, n: u64)
    ensures
        final(s)@ == old(s)@ + decimal(n as nat),
    decreases n,
{
    if n >= 10 {
        push_decimal(s, n / 10);
        push_char(s, digit(n % 10));
        assert(decimal(n as nat) == decimal((n / 10) as nat).push(digit_char((n % 10) as nat)));
    } else {
        push_char(s, digit(n));
        assert(decimal(n as nat) == seq![digit_char(n as nat)]);
    }
}

/// Appends the decimal notation of the signed `n` to `s`.
pub fn push_signed_decimal(s: &mut String, n: i64)
    ensures
        final(s)@ == old(s)@ + signed_decimal(n as int),
{
    if n < 0 {
        push_char(s, '-');
        let m: u64 = if n == i64::MIN {
            9223372036854775808u64
        } else {
            (-n) as u64
        };
        push_decimal(s, m);
    } else {
        push_decimal(s, n as u64);
    }
}

/// Lines, each followed by a line feed.
pub open spec fn join_lines(ls: Seq<Seq<char>>) -> Seq<char>
    decreases ls.len(),
{
    if ls.len() == 0 {
        Seq::empty()
    } else {
        join_lines(ls.drop_last()) + ls.last() + seq!['\n']
    }
}

/// Appending text without a separator extends the last piece.
pub proof fn lemma_split_on_append(t: Seq<char>, s: Seq<char>, sep: char)
    requires
        !s.contains(sep),
    ensures
        split_on(t + s, sep) == split_on(t, sep).update(
            split_on(t, sep).len() - 1,
            split_on(t, sep).last() + s,
        ),
    decreases s.len(),
{
    lemma_split_on_basics(t, sep);
    if s.len() == 0 {
        assert(t + s =~= t);
        assert(split_on(t, sep).last() + s =~= split_on(t, sep).last());
        assert(split_on(t, sep).update(split_on(t, sep).len() - 1, split_on(t, sep).last())
            =~= split_on(t, sep));
    } else {
        let s0 = s.drop_last();
        assert(!s0.contains(sep)) by {
            if s0.contains(sep) {
                let k = choose|k: int| 0 <= k < s0.len() && s0[k] == sep;
                assert(s[k] == sep);
            }
        }
        assert(s[s.len() - 1] != sep);
        lemma_split_on_append(t, s0, sep);
        assert((t + s).drop_last() =~= t + s0);
        assert((t + s).last() == s.last());
        lemma_split_on_basics(t + s0, sep);
        assert(split_on(t, sep).last() + s0 + seq![s.last()] =~= split_on(t, sep).last() + s);
        assert((split_on(t, sep).last() + s0).push(s.last()) =~= split_on(t, sep).last() + s);
        assert(split_on(t + s, sep) =~= split_on(t, sep).update(
            split_on(t, sep).len() - 1,
            split_on(t, sep).last() + s,
        ));
    }
}

/// A separator at the end starts a new, empty piece.
pub proof fn lemma_split_on_sep(t: Seq<char>, sep: char)
    ensures
        split_on(t + seq![sep], sep) == split_on(t, sep).push(Seq::<char>::empty()),
{
    assert((t + seq![sep]).drop_last() =~= t);
}

/// `a`, a separator, then `b`, with no other separator, splits into `a` and `b`.
pub proof fn lemma_split_on_pair(a: Seq<char>, b: Seq<char>, sep: char)
    requires
        !a.contains(sep),
        !b.contains(sep),
    ensures
        split_on(a + seq![sep] + b, sep) == seq![a, b],
{
    lemma_split_on_basics(a, sep);
    lemma_split_on_sep(a, sep);
    lemma_split_on_append(a + seq![sep], b, sep);
    assert(Seq::<char>::empty() + b =~= b);
    assert(split_on(a + seq![sep] + b, sep) =~= seq![a, b]);
}

/// `a`, `b` and `c` separated by two separators split into the three of them.
pub proof fn lemma_split_on_triple(a: Seq<char>, b: Seq<char>, c: Seq<char>, sep: char)
    requires
        !a.contains(sep),
        !b.contains(sep),
        !c.contains(sep),
    ensures
        split_on(a + seq![sep] + b + seq![sep] + c, sep) == seq![a, b, c],
{
    lemma_split_on_pair(a, b, sep);
    lemma_split_on_sep(a + seq![sep] + b, sep);
    lemma_split_on_append(a + seq![sep] + b + seq![sep], c, sep);
    assert(Seq::<char>::empty() + c =~= c);
    assert(split_on(a + seq![sep] + b + seq![sep] + c, sep) =~= seq![a, b, c]);
}

/// Joined lines without line feeds split back into the lines and a last empty piece.
pub proof fn lemma_split_join_lines(ls: Seq<Seq<char>>)
    requires
        forall|i: int| 0 <= i < ls.len() ==> !(#[trigger] ls[i]).contains('\n'),
    ensures
        split_on(join_lines(ls), '\n') == ls.push(Seq::<char>::empty()),
    decreases ls.len(),
{
    if ls.len() == 0 {
        assert(join_lines(ls) =~= Seq::<char>::empty());
        assert(ls.push(Seq::<char>::empty()) =~= seq![Seq::<char>::empty()]);
    } else {
        let init = ls.drop_last();
        assert forall|i: int| 0 <= i < init.len() implies !(#[trigger] init[i]).contains('\n') by {
            assert(init[i] == ls[i]);
        }
        lemma_split_join_lines(init);
        assert(!ls[ls.len() - 1].contains('\n'));
        lemma_split_on_append(join_lines(init), ls.last(), '\n');
        lemma_split_on_sep(join_lines(init) + ls.last(), '\n');
        assert(Seq::<char>::empty() + ls.last() =~= ls.last());
        assert(split_on(join_lines(ls), '\n') =~= ls.push(Seq::<char>::empty()));
    }
}

/// Lines without line feeds, none ending in a carriage return, are what
/// `str::lines` finds in their joined text.
pub proof fn lemma_lines_of_join(ls: Seq<Seq<char>>)
    requires
        forall|i: int| 0 <= i < ls.len() ==> !(#[trigger] ls[i]).contains('\n'),
        forall|i: int| 0 <= i < ls.len() ==> strip_cr(#[trigger] ls[i]) == ls[i],
    ensures
        lines_of(join_lines(ls)) == ls,
{
    lemma_split_join_lines(ls);
    let t = join_lines(ls);
    if ls.len() > 0 {
        assert(t.last() == '\n');
    } else {
        assert(t.len() == 0);
    }
    assert(lines_of(t) =~= ls);
}

/// Whether `a` comes before `b` in the order of `str`: character by
/// character by code point, a proper prefix first.
pub open spec fn text_less(a: Seq<char>, b: Seq<char>) -> bool
    decreases a.len(),
{
    if a.len() == 0 {
        b.len() > 0
    } else if b.len() == 0 {
        false
    } else if a[0] != b[0] {
        (a[0] as u32) < (b[0] as u32)
    } else {
        text_less(a.drop_first(), b.drop_first())
    }
}

/// No text comes before itself.
pub proof fn lemma_text_less_irreflexive(a: Seq<char>)
    ensures
        !text_less(a, a),
    decreases a.len(),
{
    if a.len() > 0 {
        lemma_text_less_irreflexive(a.drop_first());
    }
}

/// The order of texts is strict and total.
pub proof fn lemma_text_less_total(a: Seq<char>, b: Seq<char>)
    ensures
        !(text_less(a, b) && text_less(b, a)),
        !text_less(a, a),
        a != b ==> text_less(a, b) || text_less(b, a),
    decreases a.len(),
{
    lemma_text_less_irreflexive(a);
    if a.len() > 0 && b.len() > 0 {
        if a[0] == b[0] {
            lemma_text_less_total(a.drop_first(), b.drop_first());
            if a != b {
                assert(a.drop_first() != b.drop_first()) by {
                    if a.drop_first() == b.drop_first() {
                        assert(a =~= seq![a[0]] + a.drop_first());
                        assert(b =~= seq![b[0]] + b.drop_first());
                    }
                }
            }
        } else {
            let ua = a[0] as u32;
            let ub = b[0] as u32;
            vstd::utf8::char_u32_cast(a[0], ua);
            vstd::utf8::char_u32_cast(b[0], ub);
        }
    } else if a.len() == 0 && b.len() == 0 {
        assert(a =~= b);
    }
}

/// The order of texts is transitive.
pub proof fn lemma_text_less_transitive(a: Seq<char>, b: Seq<char>, c: Seq<char>)
    requires
        text_less(a, b),
        text_less(b, c),
    ensures
        text_less(a, c),
    decreases a.len(),
{
    if a.len() > 0 && b.len() > 0 && c.len() > 0 && a[0] == b[0] && b[0] == c[0] {
        lemma_text_less_transitive(a.drop_first(), b.drop_first(), c.drop_first());
    }
}

/// Whether `a` comes before `b` in the order of `str`.
pub fn chars_less(a: &[char], b: &[char]) -> (res: bool)
    ensures
        res == text_less(a@, b@),
{
    let mut i: usize = 0;
    assert(a@.skip(0) =~= a@);
    assert(b@.skip(0) =~= b@);
    while i < a.len() && i < b.len()
        invariant
            i <= a@.len(),
            i <= b@.len(),
            a@.take(i as int) == b@.take(i as int),
            text_less(a@, b@) == text_less(a@.skip(i as int), b@.skip(i as int)),
        decreases a.len() - i,
    {
        if a[i] != b[i] {
            assert(a@.skip(i as int)[0] == a@[i as int]);
            assert(b@.skip(i as int)[0] == b@[i as int]);
            return (a[i] as u32) < (b[i] as u32);
        }
        assert(a@.skip(i as int).drop_first() =~= a@.skip(i + 1));
        assert(b@.skip(i as int).drop_first() =~= b@.skip(i + 1));
        assert(a@.take(i + 1) =~= a@.take(i as int).push(a@[i as int]));
        assert(b@.take(i + 1) =~= b@.take(i as int).push(b@[i as int]));
        i = i + 1;
    }
    i == a.len() && i < b.len()
}

} // verus!
