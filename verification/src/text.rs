//! Character and string helpers shared by the manifest codec and the rename
//! planner: whitespace trimming, line splitting, separator splitting and
//! zero-padded decimal rendering, each proved against a spec function.

use vstd::prelude::*;

verus! {

/// The characters with the Unicode `White_Space` property, the set that
/// `char::is_whitespace` recognizes.
pub open spec fn is_ws(c: char) -> bool {
    c == ' ' || c == '\t' || c == '\n' || c == '\u{0b}' || c == '\u{0c}' || c == '\r'
        || c == '\u{85}' || c == '\u{a0}' || c == '\u{1680}'
        || ('\u{2000}' <= c && c <= '\u{200a}')
        || c == '\u{2028}' || c == '\u{2029}' || c == '\u{202f}' || c == '\u{205f}'
        || c == '\u{3000}'
}

/// Whether `c` has the Unicode `White_Space` property.
pub fn is_whitespace_char(c: char) -> (r: bool)
    ensures
        r == is_ws(c),
{
    c == ' ' || c == '\t' || c == '\n' || c == '\u{0b}' || c == '\u{0c}' || c == '\r'
        || c == '\u{85}' || c == '\u{a0}' || c == '\u{1680}'
        || ('\u{2000}' <= c && c <= '\u{200a}')
        || c == '\u{2028}' || c == '\u{2029}' || c == '\u{202f}' || c == '\u{205f}'
        || c == '\u{3000}'
}

/// `s` with its leading whitespace removed.
pub open spec fn trim_start_spec(s: Seq<char>) -> Seq<char>
    decreases s.len(),
{
    if s.len() > 0 && is_ws(s[0]) {
        trim_start_spec(s.drop_first())
    } else {
        s
    }
}

/// `s` with its trailing whitespace removed.
pub open spec fn trim_end_spec(s: Seq<char>) -> Seq<char>
    decreases s.len(),
{
    if s.len() > 0 && is_ws(s.last()) {
        trim_end_spec(s.drop_last())
    } else {
        s
    }
}

/// `s` with whitespace removed from both ends, as `str::trim` leaves it.
pub open spec fn trim_spec(s: Seq<char>) -> Seq<char> {
    trim_end_spec(trim_start_spec(s))
}

proof fn lemma_trim_start_range(s: Seq<char>, i: int)
    requires
        0 <= i <= s.len(),
        forall|k: int| 0 <= k < i ==> is_ws(s[k]),
        i < s.len() ==> !is_ws(s[i]),
    ensures
        trim_start_spec(s) == s.subrange(i, s.len() as int),
    decreases i,
{
    if i == 0 {
        assert(s.subrange(0, s.len() as int) =~= s);
    } else {
        assert(is_ws(s[0]));
        lemma_trim_start_range(s.drop_first(), i - 1);
        assert(s.drop_first().subrange(i - 1, s.drop_first().len() as int)
            =~= s.subrange(i, s.len() as int));
    }
}

proof fn lemma_trim_end_range(s: Seq<char>, j: int)
    requires
        0 <= j <= s.len(),
        forall|k: int| j <= k < s.len() ==> is_ws(s[k]),
        j > 0 ==> !is_ws(s[j - 1]),
    ensures
        trim_end_spec(s) == s.subrange(0, j),
    decreases s.len() - j,
{
    if j == s.len() {
        assert(s.subrange(0, s.len() as int) =~= s);
    } else {
        assert(is_ws(s.last()));
        lemma_trim_end_range(s.drop_last(), j);
        assert(s.drop_last().subrange(0, j) =~= s.subrange(0, j));
    }
}

/// `str::trim`: both ends of the text freed of whitespace.
pub fn trim(s: &str) -> (r: &str)
    ensures
        r@ == trim_spec(s@),
{
    let len = s.unicode_len();
    let mut i: usize = 0;
    while i < len && is_whitespace_char(s.get_char(i))
        invariant
            0 <= i <= len,
            len == s@.len(),
            forall|k: int| 0 <= k < i ==> is_ws(s@[k]),
        decreases len - i,
    {
        i = i + 1;
    }
    let mut j: usize = len;
    while j > i && is_whitespace_char(s.get_char(j - 1))
        invariant
            i <= j <= len,
            len == s@.len(),
            forall|k: int| 0 <= k < i ==> is_ws(s@[k]),
            i < len ==> !is_ws(s@[i as int]),
            forall|k: int| j <= k < len ==> is_ws(s@[k]),
        decreases j,
    {
        j = j - 1;
    }
    let r = s.substring_char(i, j);
    proof {
        lemma_trim_start_range(s@, i as int);
        let t = s@.subrange(i as int, s@.len() as int);
        if j == i {
            // everything from i on is whitespace, unless i == len and t is empty
            lemma_trim_end_range(t, 0);
        } else {
            lemma_trim_end_range(t, j - i);
        }
        assert(t.subrange(0, j - i) =~= s@.subrange(i as int, j as int));
    }
    r
}

/// `str::trim_end`: the tail of the text freed of whitespace.
pub fn trim_end(s: &str) -> (r: &str)
    ensures
        r@ == trim_end_spec(s@),
{
    let len = s.unicode_len();
    let mut j: usize = len;
    while j > 0 && is_whitespace_char(s.get_char(j - 1))
        invariant
            0 <= j <= len,
            len == s@.len(),
            forall|k: int| j <= k < len ==> is_ws(s@[k]),
        decreases j,
    {
        j = j - 1;
    }
    let r = s.substring_char(0, j);
    proof {
        lemma_trim_end_range(s@, j as int);
    }
    r
}

/// Relies on `String::push`: appends the one character to the string.
#[verifier::external_body]
pub fn push_char(s: &mut String, c: char)
    ensures
        final(s)@ == old(s)@.push(c),
{
    s.push(c)
}

/// Whether the views of the two strings are character-for-character equal.
pub fn str_eq(a: &str, b: &str) -> (r: bool)
    ensures
        r == (a@ == b@),
{
    let alen = a.unicode_len();
    let blen = b.unicode_len();
    if alen != blen {
        return false;
    }
    let mut i: usize = 0;
    while i < alen
        invariant
            0 <= i <= alen,
            alen == a@.len(),
            alen == b@.len(),
            forall|k: int| 0 <= k < i ==> a@[k] == b@[k],
        decreases alen - i,
    {
        if a.get_char(i) != b.get_char(i) {
            return false;
        }
        i = i + 1;
    }
    proof {
        assert(a@ =~= b@);
    }
    true
}

/// The index of the first `'\n'` in `s`, or `s.len()` when there is none.
pub open spec fn find_nl(s: Seq<char>) -> int
    decreases s.len(),
{
    if s.len() == 0 {
        0
    } else if s[0] == '\n' {
        0
    } else {
        1 + find_nl(s.drop_first())
    }
}

proof fn lemma_find_nl_at(s: Seq<char>, i: int)
    requires
        0 <= i <= s.len(),
        i < s.len() ==> s[i] == '\n',
        forall|k: int| 0 <= k < i ==> s[k] != '\n',
    ensures
        find_nl(s) == i,
    decreases i,
{
    if i > 0 {
        lemma_find_nl_at(s.drop_first(), i - 1);
    }
}

/// A line as `str::lines` hands it out: a terminated line loses one final
/// `'\r'` when it has one.
pub open spec fn strip_cr(l: Seq<char>) -> Seq<char> {
    if l.len() > 0 && l.last() == '\r' {
        l.drop_last()
    } else {
        l
    }
}

/// The lines of `s`, split as `str::lines` splits them: at each `'\n'`,
/// with a `'\r'` directly before the `'\n'` dropped, and with no empty
/// line after a final `'\n'`.
pub open spec fn lines_spec(s: Seq<char>) -> Seq<Seq<char>>
    decreases s.len(),
{
    if s.len() == 0 {
        Seq::empty()
    } else {
        let i = find_nl(s);
        if i < 0 || i >= s.len() {
            seq![s]
        } else {
            seq![strip_cr(s.subrange(0, i))] + lines_spec(s.subrange(i + 1, s.len() as int))
        }
    }
}

/// One splitting step: a first line closed by `'\n'` comes off the front.
pub proof fn lemma_lines_step(s: Seq<char>, i: int)
    requires
        0 <= i < s.len(),
        s[i] == '\n',
        forall|k: int| 0 <= k < i ==> s[k] != '\n',
    ensures
        lines_spec(s) == seq![strip_cr(s.subrange(0, i))] + lines_spec(
            s.subrange(i + 1, s.len() as int),
        ),
{
    lemma_find_nl_at(s, i);
}

/// A text without `'\n'` is one line, or none when it is empty.
pub proof fn lemma_lines_last(s: Seq<char>)
    requires
        forall|k: int| 0 <= k < s.len() ==> s[k] != '\n',
    ensures
        lines_spec(s) == if s.len() == 0 { Seq::<Seq<char>>::empty() } else { seq![s] },
{
    lemma_find_nl_at(s, s.len() as int);
}

/// `str::lines`, with each line its own `String`.
pub fn split_lines(s: &str) -> (r: Vec<String>)
    ensures
        r@.map_values(|l: String| l@) == lines_spec(s@),
{
    let len = s.unicode_len();
    let mut out: Vec<String> = Vec::new();
    let mut pos: usize = 0;
    proof {
        assert(s@.subrange(0, len as int) =~= s@);
        assert(out@.map_values(|l: String| l@) =~= Seq::<Seq<char>>::empty());
    }
    while pos < len
        invariant
            0 <= pos <= len,
            len == s@.len(),
            lines_spec(s@) == out@.map_values(|l: String| l@) + lines_spec(
                s@.subrange(pos as int, len as int),
            ),
        decreases len - pos,
    {
        let ghost rest = s@.subrange(pos as int, len as int);
        let mut j: usize = pos;
        while j < len && s.get_char(j) != '\n'
            invariant
                pos <= j <= len,
                len == s@.len(),
                forall|k: int| pos <= k < j ==> s@[k] != '\n',
            decreases len - j,
        {
            j = j + 1;
        }
        let terminated = j < len;
        let line_end = if terminated && j > pos && s.get_char(j - 1) == '\r' {
            j - 1
        } else {
            j
        };
        let line = s.substring_char(pos, line_end);
        out.push(String::from_str(line));
        proof {
            let seg = rest.subrange(0, j - pos);
            assert(forall|k: int| 0 <= k < seg.len() ==> seg[k] == s@[pos + k]);
            if terminated {
                assert(rest[j - pos] == s@[j as int]);
                lemma_lines_step(rest, j - pos);
                assert(strip_cr(seg) =~= s@.subrange(pos as int, line_end as int));
                assert(rest.subrange(j - pos + 1, rest.len() as int)
                    =~= s@.subrange(j + 1, len as int));
            } else {
                lemma_lines_last(rest);
                assert(seg =~= rest);
                assert(line@ =~= rest);
            }
            assert(out@.map_values(|l: String| l@)
                =~= out@.drop_last().map_values(|l: String| l@).push(line@));
        }
        if terminated {
            pos = j + 1;
        } else {
            pos = len;
        }
    }
    proof {
        assert(s@.subrange(pos as int, len as int) =~= Seq::<char>::empty());
        assert(lines_spec(Seq::<char>::empty()) =~= Seq::<Seq<char>>::empty());
        assert(lines_spec(s@) =~= out@.map_values(|l: String| l@));
    }
    out
}

/// The index of the first occurrence of the doubled character `cc` in `s`
/// (`"//"` for track lines, `"\\\\"` for artist fields), or `s.len()` when
/// there is none.
pub open spec fn find_pair(s: Seq<char>, c: char) -> int
    decreases s.len(),
{
    if s.len() < 2 {
        s.len() as int
    } else if s[0] == c && s[1] == c {
        0
    } else {
        1 + find_pair(s.drop_first(), c)
    }
}

proof fn lemma_find_pair_at(s: Seq<char>, c: char, i: int)
    requires
        0 <= i,
        i + 2 <= s.len(),
        s[i] == c && s[i + 1] == c,
        forall|k: int| 0 <= k < i ==> !((#[trigger] s[k]) == c && s[k + 1] == c),
    ensures
        find_pair(s, c) == i,
    decreases i,
{
    if i > 0 {
        assert forall|k: int| 0 <= k < i - 1 implies !((#[trigger] s.drop_first()[k]) == c
            && s.drop_first()[k + 1] == c) by {
            assert(!(s[k + 1] == c && s[k + 2] == c));
        }
        lemma_find_pair_at(s.drop_first(), c, i - 1);
    }
}

proof fn lemma_find_pair_none(s: Seq<char>, c: char)
    requires
        forall|k: int| 0 <= k && k + 2 <= s.len() ==> !((#[trigger] s[k]) == c && s[k + 1] == c),
    ensures
        find_pair(s, c) == s.len(),
    decreases s.len(),
{
    if s.len() >= 2 {
        assert(!(s[0] == c && s[1] == c));
        assert forall|k: int| 0 <= k && k + 2 <= s.drop_first().len() implies !((
        #[trigger] s.drop_first()[k]) == c && s.drop_first()[k + 1] == c) by {
            assert(!(s[k + 1] == c && s[k + 2] == c));
        }
        lemma_find_pair_none(s.drop_first(), c);
    }
}

/// The segments of `s` split at each occurrence of the doubled character
/// `cc`, leftmost first, as `str::split` with a two-character pattern
/// yields them.  The result is never empty.
pub open spec fn split_pair_spec(s: Seq<char>, c: char) -> Seq<Seq<char>>
    decreases s.len(),
{
    let i = find_pair(s, c);
    if i < 0 || i + 2 > s.len() {
        seq![s]
    } else {
        seq![s.subrange(0, i)] + split_pair_spec(s.subrange(i + 2, s.len() as int), c)
    }
}

/// Whether the doubled character `cc` occurs nowhere in `s`.
pub open spec fn no_pair(s: Seq<char>, c: char) -> bool {
    forall|k: int| 0 <= k && k + 2 <= s.len() ==> !((#[trigger] s[k]) == c && s[k + 1] == c)
}

/// A segment without the separator is handed back whole.
pub proof fn lemma_split_pair_whole(s: Seq<char>, c: char)
    requires
        no_pair(s, c),
    ensures
        split_pair_spec(s, c) == seq![s],
{
    lemma_find_pair_none(s, c);
}

/// One splitting step: a first segment free of the separator, and not
/// ending just before one half of it, comes off the front.
pub proof fn lemma_split_pair_step(head: Seq<char>, c: char, rest: Seq<char>)
    requires
        no_pair(head, c),
        head.len() > 0 ==> head.last() != c,
    ensures
        split_pair_spec(head + seq![c, c] + rest, c) == seq![head] + split_pair_spec(rest, c),
{
    let s = head + seq![c, c] + rest;
    let i = head.len() as int;
    assert(s[i] == c && s[i + 1] == c);
    assert forall|k: int| 0 <= k < i implies !((#[trigger] s[k]) == c && s[k + 1] == c) by {
        if k + 1 < i {
            assert(s[k] == head[k] && s[k + 1] == head[k + 1]);
        } else {
            assert(s[k] == head[k]);
            assert(head.last() != c);
        }
    }
    lemma_find_pair_at(s, c, i);
    assert(s.subrange(0, i) =~= head);
    assert(s.subrange(i + 2, s.len() as int) =~= rest);
}

/// `str::split` with the doubled character `cc` as the pattern.
pub fn split_pair(s: &str, c: char) -> (r: Vec<String>)
    ensures
        r@.map_values(|l: String| l@) == split_pair_spec(s@, c),
        r@.len() > 0,
{
    let len = s.unicode_len();
    let mut out: Vec<String> = Vec::new();
    let mut pos: usize = 0;
    proof {
        assert(s@.subrange(0, len as int) =~= s@);
        assert(out@.map_values(|l: String| l@) =~= Seq::<Seq<char>>::empty());
    }
    loop
        invariant_except_break
            0 <= pos <= len,
            len == s@.len(),
            split_pair_spec(s@, c) == out@.map_values(|l: String| l@) + split_pair_spec(
                s@.subrange(pos as int, len as int),
                c,
            ),
        ensures
            split_pair_spec(s@, c) == out@.map_values(|l: String| l@),
            out@.len() > 0,
        decreases len - pos + 1,
    {
        let ghost rest = s@.subrange(pos as int, len as int);
        let mut j: usize = pos;
        while j < len && !(j + 1 < len && s.get_char(j) == c && s.get_char(j + 1) == c)
            invariant
                pos <= j <= len,
                len == s@.len(),
                forall|k: int| pos <= k && k + 2 <= len && k < j ==> !((#[trigger] s@[k]) == c && s@[k + 1] == c),
            decreases len - j,
        {
            j = j + 1;
        }
        let matched = j < len;
        let seg = s.substring_char(pos, j);
        out.push(String::from_str(seg));
        proof {
            let segv = rest.subrange(0, j - pos);
            assert(forall|k: int| 0 <= k < segv.len() ==> segv[k] == s@[pos + k]);
            assert(segv =~= seg@);
            if matched {
                assert(rest[j - pos] == c && rest[j - pos + 1] == c);
                assert forall|k: int| 0 <= k < j - pos implies !((#[trigger] rest[k]) == c
                    && rest[k + 1] == c) by {
                    assert(rest[k] == s@[pos + k]);
                    if k + 1 < rest.len() {
                        assert(rest[k + 1] == s@[pos + k + 1]);
                    }
                }
                lemma_find_pair_at(rest, c, j - pos);
                assert(rest.subrange(j - pos + 2, rest.len() as int)
                    =~= s@.subrange(j + 2, len as int));
            } else {
                assert forall|k: int| 0 <= k && k + 2 <= rest.len() implies !((
                #[trigger] rest[k]) == c && rest[k + 1] == c) by {
                    assert(rest[k] == s@[pos + k] && rest[k + 1] == s@[pos + k + 1]);
                }
                lemma_find_pair_none(rest, c);
            }
            assert(out@.map_values(|l: String| l@)
                =~= out@.drop_last().map_values(|l: String| l@).push(seg@));
        }
        if matched {
            pos = j + 2;
        } else {
            proof {
                assert(split_pair_spec(rest, c) =~= seq![seg@]);
                assert(split_pair_spec(s@, c) =~= out@.map_values(|l: String| l@));
            }
            break;
        }
    }
    out
}


/// The decimal digits of `n`, most significant first, without the leading
/// `'0'` that a zero value renders as.
pub open spec fn dec_digits(n: nat) -> Seq<char>
    decreases n,
{
    if n == 0 {
        Seq::empty()
    } else {
        dec_digits(n / 10).push(((48 + n % 10) as u8) as char)
    }
}

/// The decimal rendering of `n`, as `usize::to_string` gives it.
pub open spec fn dec_spec(n: nat) -> Seq<char> {
    if n == 0 {
        seq!['0']
    } else {
        dec_digits(n)
    }
}

/// `k` zeros, or none when `k` is not positive.
pub open spec fn zeros(k: int) -> Seq<char> {
    Seq::new(if k < 0 { 0 } else { k as nat }, |i: int| '0')
}

/// The decimal rendering of `n` left-padded with zeros to at least `w`
/// characters.
pub open spec fn pad_to_spec(n: nat, w: int) -> Seq<char> {
    zeros(w - dec_spec(n).len()) + dec_spec(n)
}

/// `s` reversed.
pub open spec fn rev_of(s: Seq<char>) -> Seq<char> {
    Seq::new(s.len(), |i: int| s[s.len() - 1 - i])
}

/// The decimal rendering of `n`.
pub fn dec_string(n: usize) -> (r: String)
    ensures
        r@ == dec_spec(n as nat),
{
    if n == 0 {
        proof {
            reveal_strlit("0");
        }
        let r = String::from_str("0");
        proof {
            assert(r@ =~= seq!['0']);
        }
        return r;
    }
    let mut digits: Vec<char> = Vec::new();
    let mut m: usize = n;
    proof {
        assert(rev_of(digits@) =~= Seq::<char>::empty());
    }
    while m > 0
        invariant
            dec_digits(n as nat) == dec_digits(m as nat) + rev_of(digits@),
            m == 0 ==> digits@.len() > 0,
            n > 0,
        decreases m,
    {
        let d: u8 = (m % 10) as u8;
        let ghost before = digits@;
        digits.push((48 + d) as char);
        proof {
            assert(rev_of(before.push((48 + d) as char)) =~= seq![((48 + d) as char)] + rev_of(
                before,
            ));
            assert(dec_digits(m as nat) == dec_digits((m as nat) / 10).push(
                ((48 + (m as nat) % 10) as u8) as char,
            ));
            assert(dec_digits((m as nat) / 10) + (seq![((48 + d) as char)] + rev_of(before))
                =~= dec_digits(m as nat) + rev_of(before));
        }
        m = m / 10;
    }
    let mut r = String::new();
    let count = digits.len();
    let mut i: usize = count;
    proof {
        assert(r@ =~= rev_of(digits@).subrange(0, 0));
    }
    while i > 0
        invariant
            0 <= i <= count,
            count == digits@.len(),
            r@ == rev_of(digits@).subrange(0, count - i),
        decreases i,
    {
        i = i - 1;
        push_char(&mut r, digits[i]);
        proof {
            assert(r@ =~= rev_of(digits@).subrange(0, count - i));
        }
    }
    proof {
        assert(rev_of(digits@).subrange(0, count as int) =~= rev_of(digits@));
        assert(dec_digits(n as nat) + rev_of(digits@) =~= rev_of(digits@) ==> dec_digits(
            n as nat,
        ) =~= Seq::<char>::empty());
    }
    r
}

/// The decimal rendering of `n` left-padded with zeros to at least `width`
/// characters.
pub fn pad_number(n: usize, width: usize) -> (r: String)
    ensures
        r@ == pad_to_spec(n as nat, width as int),
{
    let ds = dec_string(n);
    let dlen = ds.as_str().unicode_len();
    let mut r = String::new();
    let mut k: usize = 0;
    let pad = if width > dlen {
        width - dlen
    } else {
        0
    };
    proof {
        assert(r@ =~= zeros(pad as int).subrange(0, 0));
    }
    while k < pad
        invariant
            0 <= k <= pad,
            r@ == zeros(pad as int).subrange(0, k as int),
        decreases pad - k,
    {
        push_char(&mut r, '0');
        k = k + 1;
        proof {
            assert(r@ =~= zeros(pad as int).subrange(0, k as int));
        }
    }
    let mut r = r;
    r.append(ds.as_str());
    proof {
        assert(zeros(pad as int).subrange(0, pad as int) =~= zeros(pad as int));
        assert(zeros(pad as int) =~= zeros(width - dec_spec(n as nat).len()));
    }
    r
}


/// The index of the last `'.'` in `s`, or `-1` when there is none.
pub open spec fn find_last_dot(s: Seq<char>) -> int
    decreases s.len(),
{
    if s.len() == 0 {
        -1
    } else if s.last() == '.' {
        s.len() - 1
    } else {
        find_last_dot(s.drop_last())
    }
}

proof fn lemma_find_last_dot(s: Seq<char>)
    ensures
        -1 <= find_last_dot(s) < s.len(),
        find_last_dot(s) >= 0 ==> s[find_last_dot(s)] == '.',
        forall|k: int| find_last_dot(s) < k < s.len() ==> s[k] != '.',
    decreases s.len(),
{
    if s.len() > 0 && s.last() != '.' {
        lemma_find_last_dot(s.drop_last());
        assert forall|k: int| find_last_dot(s) < k < s.len() implies s[k] != '.' by {
            if k < s.len() - 1 {
                assert(s.drop_last()[k] != '.');
            }
        }
    }
}

proof fn lemma_find_last_dot_at(s: Seq<char>, i: int)
    requires
        -1 <= i < s.len(),
        i >= 0 ==> s[i] == '.',
        forall|k: int| i < k < s.len() ==> s[k] != '.',
    ensures
        find_last_dot(s) == i,
    decreases s.len(),
{
    if s.len() > 0 && i < s.len() - 1 {
        lemma_find_last_dot_at(s.drop_last(), i);
    }
}

/// The extension of a plain file name, as `Path::extension` sees it: the
/// part after the last `'.'`, and nothing when there is no `'.'` or when
/// the only `'.'` starts a hidden-file name.
pub open spec fn extension_spec(name: Seq<char>) -> Option<Seq<char>> {
    let i = find_last_dot(name);
    if i <= 0 {
        None
    } else {
        Some(name.subrange(i + 1, name.len() as int))
    }
}

/// The stem of a plain file name, as `Path::file_stem` sees it: the part
/// before the extension, or the whole name when there is none.
pub open spec fn file_stem_spec(name: Seq<char>) -> Seq<char> {
    let i = find_last_dot(name);
    if i <= 0 {
        name
    } else {
        name.subrange(0, i)
    }
}

fn rfind_dot(name: &str) -> (r: usize)
    ensures
        r == find_last_dot(name@) + 1,
        r <= name@.len(),
{
    let len = name.unicode_len();
    let mut j: usize = len;
    while j > 0 && name.get_char(j - 1) != '.'
        invariant
            0 <= j <= len,
            len == name@.len(),
            forall|k: int| j <= k < len ==> name@[k] != '.',
        decreases j,
    {
        j = j - 1;
    }
    proof {
        lemma_find_last_dot_at(name@, j - 1);
    }
    j
}

/// The extension of a plain file name.
pub fn extension_of(name: &str) -> (r: Option<&str>)
    ensures
        match (r, extension_spec(name@)) {
            (Some(s), Some(v)) => s@ == v,
            (None, None) => true,
            _ => false,
        },
{
    let len = name.unicode_len();
    let j = rfind_dot(name);
    if j <= 1 {
        None
    } else {
        Some(name.substring_char(j, len))
    }
}

/// The stem of a plain file name.
pub fn file_stem_of(name: &str) -> (r: &str)
    ensures
        r@ == file_stem_spec(name@),
{
    let j = rfind_dot(name);
    if j <= 1 {
        name
    } else {
        proof {
            assert(name@.subrange(0, name@.len() as int) =~= name@);
        }
        name.substring_char(0, j - 1)
    }
}


/// The decimal rendering of the 32-bit `n` left-padded with zeros to at
/// least `width` characters.
pub fn pad_number_u32(n: u32, width: usize) -> (r: String)
    ensures
        r@ == pad_to_spec(n as nat, width as int),
{
    pad_number(n as usize, width)
}

} // verus!
