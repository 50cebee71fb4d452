use vstd::prelude::*;

verus! {

// ---------------------------------------------------------------------------
// Specifications over character sequences
// ---------------------------------------------------------------------------

/// Unicode `White_Space` characters (what `char::is_whitespace` accepts).
pub open spec fn is_ws(c: char) -> bool {
    let v = c as u32;
    ||| 0x9 <= v <= 0xd
    ||| v == 0x20
    ||| v == 0x85
    ||| v == 0xa0
    ||| v == 0x1680
    ||| 0x2000 <= v <= 0x200a
    ||| v == 0x2028
    ||| v == 0x2029
    ||| v == 0x202f
    ||| v == 0x205f
    ||| v == 0x3000
}

/// Drops leading characters that satisfy `p`.
pub open spec fn trim_start_by(s: Seq<char>, p: spec_fn(char) -> bool) -> Seq<char>
    decreases s.len(),
{
    if s.len() > 0 && p(s[0]) {
        trim_start_by(s.drop_first(), p)
    } else {
        s
    }
}

/// Drops trailing characters that satisfy `p`.
pub open spec fn trim_end_by(s: Seq<char>, p: spec_fn(char) -> bool) -> Seq<char>
    decreases s.len(),
{
    if s.len() > 0 && p(s.last()) {
        trim_end_by(s.drop_last(), p)
    } else {
        s
    }
}

/// `str::trim`: whitespace removed at both ends.
pub open spec fn trim_ws(s: Seq<char>) -> Seq<char> {
    trim_end_by(trim_start_by(s, |c: char| is_ws(c)), |c: char| is_ws(c))
}

/// The predicate "is the character `c`".
pub open spec fn eq_char(c: char) -> spec_fn(char) -> bool {
    |x: char| x == c
}

/// `str::trim_matches(c)` for a single character.
pub open spec fn trim_char(s: Seq<char>, c: char) -> Seq<char> {
    trim_end_by(trim_start_by(s, eq_char(c)), eq_char(c))
}

/// `str::trim_end_matches(c)` for a single character.
pub open spec fn trim_end_char(s: Seq<char>, c: char) -> Seq<char> {
    trim_end_by(s, eq_char(c))
}

/// `str::trim_start_matches(c)` for a single character.
pub open spec fn trim_start_char(s: Seq<char>, c: char) -> Seq<char> {
    trim_start_by(s, eq_char(c))
}

/// `p` is a prefix of `s`.
pub open spec fn has_prefix(s: Seq<char>, p: Seq<char>) -> bool {
    p.len() <= s.len() && s.take(p.len() as int) == p
}

/// `str::trim_start_matches(pat)` for a non-empty string pattern: strips the
/// pattern from the front as long as it is there.
pub open spec fn trim_start_seq(s: Seq<char>, pat: Seq<char>) -> Seq<char>
    decreases s.len(),
{
    if pat.len() > 0 && has_prefix(s, pat) {
        trim_start_seq(s.skip(pat.len() as int), pat)
    } else {
        s
    }
}

/// Every occurrence of `from` replaced by `to`.
pub open spec fn replace_char(s: Seq<char>, from: char, to: char) -> Seq<char> {
    s.map_values(|x: char| if x == from { to } else { x })
}

/// `needle` occurs in `hay` at position `i`.
pub open spec fn occurs_at(hay: Seq<char>, needle: Seq<char>, i: int) -> bool {
    0 <= i && i + needle.len() <= hay.len() && hay.subrange(i, i + needle.len()) == needle
}

/// `str::contains` for a string pattern.
pub open spec fn contains_seq(hay: Seq<char>, needle: Seq<char>) -> bool {
    exists|i: int| occurs_at(hay, needle, i)
}

/// Position of the first occurrence of `c` at or after `from`.
pub open spec fn find_char_from(s: Seq<char>, c: char, from: int) -> Option<int>
    decreases s.len() - from,
{
    if from < 0 || from >= s.len() {
        None
    } else if s[from] == c {
        Some(from)
    } else {
        find_char_from(s, c, from + 1)
    }
}

/// Drops one trailing carriage return, if any.
pub open spec fn strip_cr(s: Seq<char>) -> Seq<char> {
    if s.len() > 0 && s.last() == '\r' {
        s.drop_last()
    } else {
        s
    }
}

/// `str::lines`: pieces ended by `\n`; a `\r` right before the `\n` is dropped,
/// and no empty piece follows a final `\n`.
pub open spec fn lines_spec(s: Seq<char>) -> Seq<Seq<char>>
    decreases s.len(),
{
    if s.len() == 0 {
        seq![]
    } else {
        match find_char_from(s, '\n', 0) {
            None => seq![s],
            Some(i) => {
                proof {
                    lemma_find_char_bounds(s, '\n', 0);
                }
                seq![strip_cr(s.take(i))] + lines_spec(s.skip(i + 1))
            },
        }
    }
}

/// `str::split(c)` for a single character: the pieces between occurrences.
pub open spec fn split_spec(s: Seq<char>, c: char) -> Seq<Seq<char>>
    decreases s.len(),
{
    match find_char_from(s, c, 0) {
        None => seq![s],
        Some(i) => {
            proof {
                lemma_find_char_bounds(s, c, 0);
            }
            seq![s.take(i)] + split_spec(s.skip(i + 1), c)
        },
    }
}

/// Lines joined with `\n` between them.
pub open spec fn join_lines(ls: Seq<Seq<char>>) -> Seq<char>
    decreases ls.len(),
{
    if ls.len() == 0 {
        seq![]
    } else if ls.len() == 1 {
        ls[0]
    } else {
        join_lines(ls.drop_last()) + seq!['\n'] + ls.last()
    }
}

/// Number of bytes that UTF-8 uses for `c`.
pub open spec fn utf8_width(c: char) -> nat {
    let v = c as u32;
    if v < 0x80 {
        1
    } else if v < 0x800 {
        2
    } else if v < 0x10000 {
        3
    } else {
        4
    }
}

/// Number of bytes that UTF-8 uses for `s` (what `str::len` returns).
pub open spec fn byte_len(s: Seq<char>) -> nat
    decreases s.len(),
{
    if s.len() == 0 {
        0
    } else {
        byte_len(s.drop_last()) + utf8_width(s.last())
    }
}

pub open spec fn is_digit(c: char) -> bool {
    '0' <= c && c <= '9'
}

pub open spec fn all_digits(s: Seq<char>) -> bool {
    forall|i: int| 0 <= i < s.len() ==> is_digit(#[trigger] s[i])
}

/// Decimal value of a digit string.
pub open spec fn decimal_value(s: Seq<char>) -> nat
    decreases s.len(),
{
    if s.len() == 0 {
        0
    } else {
        decimal_value(s.drop_last()) * 10 + ((s.last() as u32) - ('0' as u32)) as nat
    }
}

/// `str::parse::<usize>`: an optional `+`, then at least one decimal digit,
/// with a value that fits.
pub open spec fn parse_usize_spec(s: Seq<char>) -> Option<usize> {
    let d = if s.len() > 0 && s[0] == '+' { s.drop_first() } else { s };
    if d.len() > 0 && all_digits(d) && decimal_value(d) <= usize::MAX {
        Some(decimal_value(d) as usize)
    } else {
        None
    }
}

/// `str::parse::<i32>`: an optional sign, then at least one decimal digit,
/// with a value that fits.
pub open spec fn parse_i32_spec(s: Seq<char>) -> Option<i32> {
    let neg = s.len() > 0 && s[0] == '-';
    let d = if s.len() > 0 && (s[0] == '+' || s[0] == '-') { s.drop_first() } else { s };
    if d.len() > 0 && all_digits(d) {
        if neg && decimal_value(d) <= 0x8000_0000 {
            Some((0 - decimal_value(d)) as i32)
        } else if !neg && decimal_value(d) <= 0x7fff_ffff {
            Some(decimal_value(d) as i32)
        } else {
            None
        }
    } else {
        None
    }
}

// ---------------------------------------------------------------------------
// Outside calls
// ---------------------------------------------------------------------------

/// `String::push`: the string grows by the one character.
#[verifier::external_body]
pub(crate) fn push_char(s: &mut String, c: char)
    ensures
        final(s)@ == old(s)@.push(c),
{
    s.push(c);
}

/// `String::pop`: removes and returns the last character, if any.
#[verifier::external_body]
pub(crate) fn pop_char(s: &mut String) -> (r: Option<char>)
    ensures
        old(s)@.len() == 0 ==> r is None && final(s)@ == old(s)@,
        old(s)@.len() > 0 ==> r == Some(old(s)@.last()) && final(s)@ == old(s)@.drop_last(),
{
    s.pop()
}

/// What `str::to_lowercase` returns for a string (Unicode lowercase mapping).
pub uninterp spec fn lowercase(s: Seq<char>) -> Seq<char>;

/// `str::to_lowercase`: the result is the Unicode lowercase mapping of `s`,
/// named by `lowercase`; the mapping itself is not restated here.
#[verifier::external_body]
pub(crate) fn to_lowercase(s: &str) -> (r: String)
    ensures
        r@ == lowercase(s@),
{
    s.to_lowercase()
}

/// What `str::to_uppercase` returns for a string (Unicode uppercase mapping).
pub uninterp spec fn uppercase(s: Seq<char>) -> Seq<char>;

/// `str::to_uppercase`: the result is the Unicode uppercase mapping of `s`,
/// named by `uppercase`; the mapping itself is not restated here.
#[verifier::external_body]
pub(crate) fn to_uppercase(s: &str) -> (r: String)
    ensures
        r@ == uppercase(s@),
{
    s.to_uppercase()
}

// ---------------------------------------------------------------------------
// Lemmas
// ---------------------------------------------------------------------------

pub proof fn lemma_trim_start_at(s: Seq<char>, p: spec_fn(char) -> bool, i: int)
    requires
        0 <= i <= s.len(),
        forall|j: int| 0 <= j < i ==> p(#[trigger] s[j]),
        i == s.len() || !p(s[i]),
    ensures
        trim_start_by(s, p) == s.subrange(i, s.len() as int),
    decreases i,
{
    if i == 0 {
        assert(s.subrange(0, s.len() as int) =~= s);
    } else {
        let t = s.drop_first();
        assert forall|j: int| 0 <= j < i - 1 implies p(#[trigger] t[j]) by {
            assert(t[j] == s[j + 1]);
        }
        lemma_trim_start_at(t, p, i - 1);
        assert(t.subrange(i - 1, t.len() as int) =~= s.subrange(i, s.len() as int));
    }
}

pub proof fn lemma_trim_end_at(s: Seq<char>, p: spec_fn(char) -> bool, k: int)
    requires
        0 <= k <= s.len(),
        forall|j: int| k <= j < s.len() ==> p(#[trigger] s[j]),
        k == 0 || !p(s[k - 1]),
    ensures
        trim_end_by(s, p) == s.take(k),
    decreases s.len() - k,
{
    if k == s.len() {
        assert(s.take(k) =~= s);
    } else {
        let t = s.drop_last();
        assert forall|j: int| k <= j < t.len() implies p(#[trigger] t[j]) by {
            assert(t[j] == s[j]);
        }
        lemma_trim_end_at(t, p, k);
        assert(t.take(k) =~= s.take(k));
    }
}

pub proof fn lemma_find_char_bounds(s: Seq<char>, c: char, from: int)
    ensures
        find_char_from(s, c, from) matches Some(i) ==> from <= i < s.len() && s[i] == c
            && forall|j: int| from <= j < i ==> s[j] != c,
    decreases s.len() - from,
{
    if 0 <= from < s.len() && s[from] != c {
        lemma_find_char_bounds(s, c, from + 1);
    }
}

pub proof fn lemma_find_char_from(s: Seq<char>, c: char, from: int, i: int)
    requires
        0 <= from <= i <= s.len(),
        forall|j: int| from <= j < i ==> s[j] != c,
        i == s.len() || s[i] == c,
    ensures
        find_char_from(s, c, from) == (if i == s.len() { None::<int> } else { Some(i) }),
    decreases i - from,
{
    if from < i {
        lemma_find_char_from(s, c, from + 1, i);
    }
}

// ---------------------------------------------------------------------------
// Executable helpers
// ---------------------------------------------------------------------------

/// The characters of a string, in order.
pub fn chars_of(s: &str) -> (v: Vec<char>)
    ensures
        v@ == s@,
{
    let mut v: Vec<char> = Vec::new();
    for c in it: s.chars()
        invariant
            v@ == it.seq().take(it.index() as int),
            it.seq() == s@,
    {
        v.push(c);
    }
    v
}

/// A string made of the characters `cs[from..to]`.
pub fn string_of(cs: &[char], from: usize, to: usize) -> (s: String)
    requires
        from <= to <= cs@.len(),
    ensures
        s@ == cs@.subrange(from as int, to as int),
{
    let mut s = String::new();
    let mut i = from;
    while i < to
        invariant
            from <= i <= to <= cs@.len(),
            s@ == cs@.subrange(from as int, i as int),
        decreases to - i,
    {
        push_char(&mut s, cs[i]);
        i += 1;
        assert(s@ =~= cs@.subrange(from as int, i as int));
    }
    s
}

/// Index of the first character at or after `from` that is not whitespace.
pub fn skip_ws(cs: &[char]) -> (i: usize)
    ensures
        i <= cs@.len(),
        trim_start_by(cs@, |c: char| is_ws(c)) == cs@.subrange(i as int, cs@.len() as int),
{
    let mut i: usize = 0;
    while i < cs.len() && is_ws_exec(cs[i])
        invariant
            i <= cs@.len(),
            forall|j: int| 0 <= j < i ==> is_ws(#[trigger] cs@[j]),
        decreases cs@.len() - i,
    {
        i += 1;
    }
    proof {
        lemma_trim_start_at(cs@, |c: char| is_ws(c), i as int);
    }
    i
}

/// `char::is_whitespace`.
pub fn is_ws_exec(c: char) -> (b: bool)
    ensures
        b == is_ws(c),
{
    let v = c as u32;
    (0x9 <= v && v <= 0xd) || v == 0x20 || v == 0x85 || v == 0xa0 || v == 0x1680 || (0x2000 <= v
        && v <= 0x200a) || v == 0x2028 || v == 0x2029 || v == 0x202f || v == 0x205f || v == 0x3000
}

/// `str::trim` on a character vector.
pub fn trim_ws_chars(cs: &[char]) -> (r: Vec<char>)
    ensures
        r@ == trim_ws(cs@),
{
    let start = skip_ws(cs);
    let mut end = cs.len();
    while end > start && is_ws_exec(cs[end - 1])
        invariant
            start <= end <= cs@.len(),
            forall|j: int| end <= j < cs@.len() ==> is_ws(#[trigger] cs@[j]),
        decreases end,
    {
        end -= 1;
    }
    let ghost t = cs@.subrange(start as int, cs@.len() as int);
    proof {
        assert forall|j: int| end - start <= j < t.len() implies is_ws(#[trigger] t[j]) by {
            assert(t[j] == cs@[j + start]);
        }
        if end > start {
            assert(t[end - start - 1] == cs@[end - 1]);
        } else {
            // Nothing but whitespace remains after `start`.
        }
        lemma_trim_end_at(t, |c: char| is_ws(c), end - start);
    }
    let mut r: Vec<char> = Vec::new();
    let mut i = start;
    while i < end
        invariant
            start <= i <= end <= cs@.len(),
            r@ == cs@.subrange(start as int, i as int),
        decreases end - i,
    {
        r.push(cs[i]);
        i += 1;
    }
    proof {
        assert(t.take(end - start) =~= cs@.subrange(start as int, end as int));
    }
    r
}


/// The views of a sequence of strings.
pub open spec fn string_views(v: Seq<String>) -> Seq<Seq<char>> {
    v.map_values(|l: String| l@)
}

/// Position of the first `c` at or after `from`, or the length when there is none.
pub fn find_char(cs: &[char], c: char, from: usize) -> (i: usize)
    requires
        from <= cs@.len(),
    ensures
        from <= i <= cs@.len(),
        find_char_from(cs@, c, from as int) == (if i == cs@.len() {
            None::<int>
        } else {
            Some(i as int)
        }),
        forall|j: int| from <= j < i ==> cs@[j] != c,
        i < cs@.len() ==> cs@[i as int] == c,
{
    let mut i = from;
    while i < cs.len() && cs[i] != c
        invariant
            from <= i <= cs@.len(),
            forall|j: int| from <= j < i ==> cs@[j] != c,
        decreases cs@.len() - i,
    {
        i += 1;
    }
    proof {
        lemma_find_char_from(cs@, c, from as int, i as int);
    }
    i
}

pub proof fn lemma_find_shift(s: Seq<char>, c: char, pos: int)
    requires
        0 <= pos <= s.len(),
    ensures
        find_char_from(s.skip(pos), c, 0) == (match find_char_from(s, c, pos) {
            Some(i) => Some(i - pos),
            None => None::<int>,
        }),
    decreases s.len() - pos,
{
    let t = s.skip(pos);
    lemma_find_char_bounds(s, c, pos);
    match find_char_from(s, c, pos) {
        Some(i) => {
            assert forall|j: int| 0 <= j < i - pos implies t[j] != c by {
                assert(t[j] == s[j + pos]);
            }
            assert(t[i - pos] == s[i]);
            lemma_find_char_from(t, c, 0, i - pos);
        },
        None => {
            let mut k = pos;
            // every character from `pos` on differs from `c`
            assert forall|j: int| 0 <= j < t.len() implies t[j] != c by {
                assert(t[j] == s[j + pos]);
                if s[j + pos] == c {
                    lemma_no_find(s, c, pos, j + pos);
                }
            }
            lemma_find_char_from(t, c, 0, t.len() as int);
        },
    }
}

pub proof fn lemma_no_find(s: Seq<char>, c: char, from: int, j: int)
    requires
        0 <= from <= j < s.len(),
        s[j] == c,
    ensures
        find_char_from(s, c, from) is Some,
    decreases j - from,
{
    if s[from] != c {
        lemma_no_find(s, c, from + 1, j);
    }
}

/// `str::lines`.
pub fn lines_of(text: &str) -> (r: Vec<String>)
    ensures
        string_views(r@) == lines_spec(text@),
{
    let cs = chars_of(text);
    let mut r: Vec<String> = Vec::new();
    let mut pos: usize = 0;
    proof {
        assert(cs@.skip(0) =~= cs@);
        assert(string_views(r@) + lines_spec(cs@) =~= lines_spec(cs@));
    }
    while pos < cs.len()
        invariant
            pos <= cs@.len(),
            cs@ == text@,
            lines_spec(cs@) == string_views(r@) + lines_spec(cs@.skip(pos as int)),
        decreases cs@.len() - pos,
    {
        let ghost rest = cs@.skip(pos as int);
        let j = find_char(cs.as_slice(), '\n', pos);
        proof {
            lemma_find_shift(cs@, '\n', pos as int);
        }
        let ghost old_r = string_views(r@);
        if j == cs.len() {
            let piece = string_of(cs.as_slice(), pos, j);
            r.push(piece);
            proof {
                assert(rest =~= cs@.subrange(pos as int, j as int));
                assert(string_views(r@) =~= old_r.push(piece@));
                assert(cs@.skip(j as int) =~= Seq::<char>::empty());
                assert(lines_spec(rest) == seq![rest]);
            }
            pos = j;
        } else {
            let mut end = j;
            if end > pos && cs[end - 1] == '\r' {
                end = end - 1;
            }
            let piece = string_of(cs.as_slice(), pos, end);
            r.push(piece);
            proof {
                assert(rest.take(j - pos) =~= cs@.subrange(pos as int, j as int));
                assert(strip_cr(rest.take(j - pos)) =~= cs@.subrange(pos as int, end as int));
                assert(rest.skip(j - pos + 1) =~= cs@.skip(j + 1));
                assert(string_views(r@) =~= old_r.push(piece@));
                assert(lines_spec(rest) == seq![strip_cr(rest.take(j - pos))] + lines_spec(
                    rest.skip(j - pos + 1),
                ));
            }
            pos = j + 1;
        }
    }
    proof {
        assert(cs@.skip(pos as int) =~= Seq::<char>::empty());
        assert(string_views(r@) + Seq::<Seq<char>>::empty() =~= string_views(r@));
    }
    r
}

pub proof fn lemma_decimal_step(s: Seq<char>, k: int)
    requires
        0 <= k < s.len(),
    ensures
        decimal_value(s.take(k + 1)) == decimal_value(s.take(k)) * 10 + ((s[k] as u32) - (
        '0' as u32)) as nat,
{
    assert(s.take(k + 1).drop_last() =~= s.take(k));
}

pub proof fn lemma_decimal_mono(s: Seq<char>, k: int)
    requires
        0 <= k <= s.len(),
        all_digits(s),
    ensures
        decimal_value(s.take(k)) <= decimal_value(s),
    decreases s.len() - k,
{
    if k < s.len() {
        lemma_decimal_step(s, k);
        lemma_decimal_mono(s, k + 1);
    } else {
        assert(s.take(k) =~= s);
    }
}

/// Decimal value of `cs[from..]` when it is a non-empty run of digits whose value
/// is at most `bound`; `None` otherwise.
fn digits_value(cs: &[char], from: usize, bound: u128) -> (r: Option<u128>)
    requires
        from <= cs@.len(),
        bound <= 0xffff_ffff_ffff_ffff,
    ensures
        ({
            let d = cs@.skip(from as int);
            match r {
                Some(v) => d.len() > 0 && all_digits(d) && v == decimal_value(d) && v <= bound,
                None => !(d.len() > 0 && all_digits(d) && decimal_value(d) <= bound),
            }
        }),
{
    let ghost d = cs@.skip(from as int);
    if from >= cs.len() {
        return None;
    }
    let mut acc: u128 = 0;
    let mut i = from;
    while i < cs.len()
        invariant
            from <= i <= cs@.len(),
            d == cs@.skip(from as int),
            bound <= 0xffff_ffff_ffff_ffff,
            acc <= bound,
            acc == decimal_value(d.take(i - from)),
            all_digits(d.take(i - from)),
        decreases cs@.len() - i,
    {
        let c = cs[i];
        if !('0' <= c && c <= '9') {
            proof {
                assert(d[i - from] == c);
            }
            return None;
        }
        let digit = (c as u32 - '0' as u32) as u128;
        proof {
            assert(d[i - from] == c);
            lemma_decimal_step(d, i - from);
            assert(all_digits(d.take(i - from + 1))) by {
                assert forall|j: int| 0 <= j < i - from + 1 implies is_digit(
                    #[trigger] d.take(i - from + 1)[j],
                ) by {
                    if j < i - from {
                        assert(d.take(i - from + 1)[j] == d.take(i - from)[j]);
                    }
                }
            }
        }
        let next = acc * 10 + digit;
        if next > bound {
            proof {
                if all_digits(d) {
                    lemma_decimal_mono(d, i - from + 1);
                }
            }
            return None;
        }
        acc = next;
        i += 1;
    }
    proof {
        assert(d.take(i - from) =~= d);
    }
    Some(acc)
}

/// `str::parse::<i32>(..).ok()` on a character sequence.
pub fn parse_i32(cs: &[char]) -> (r: Option<i32>)
    ensures
        r == parse_i32_spec(cs@),
{
    let neg = cs.len() > 0 && cs[0] == '-';
    let from: usize = if cs.len() > 0 && (cs[0] == '+' || cs[0] == '-') { 1 } else { 0 };
    proof {
        if from == 1 {
            assert(cs@.drop_first() =~= cs@.skip(1));
        } else {
            assert(cs@ =~= cs@.skip(0));
        }
    }
    let bound: u128 = if neg { 0x8000_0000 } else { 0x7fff_ffff };
    match digits_value(cs, from, bound) {
        Some(v) => {
            if neg {
                Some((0 - (v as i64)) as i32)
            } else {
                Some(v as i32)
            }
        },
        None => None,
    }
}

/// `str::parse::<usize>(..).ok()` on a character sequence.
pub fn parse_usize(cs: &[char]) -> (r: Option<usize>)
    ensures
        r == parse_usize_spec(cs@),
{
    let from: usize = if cs.len() > 0 && cs[0] == '+' { 1 } else { 0 };
    proof {
        if from == 1 {
            assert(cs@.drop_first() =~= cs@.skip(1));
        } else {
            assert(cs@ =~= cs@.skip(0));
        }
    }
    let bound = usize::MAX as u128;
    match digits_value(cs, from, bound) {
        Some(v) => Some(v as usize),
        None => {
            None
        }
    }
}


/// Position of the last occurrence of `pat` that starts at or before `i`.
pub open spec fn last_occurrence_from(s: Seq<char>, pat: Seq<char>, i: int) -> Option<int>
    decreases i + 1,
{
    if i < 0 {
        None
    } else if occurs_at(s, pat, i) {
        Some(i)
    } else {
        last_occurrence_from(s, pat, i - 1)
    }
}

/// Position of the last occurrence of `pat` in `s` (what `str::rsplit_once` splits at).
pub open spec fn last_occurrence(s: Seq<char>, pat: Seq<char>) -> Option<int> {
    last_occurrence_from(s, pat, s.len() - pat.len())
}

/// The characters `cs[from..to]`.
pub fn sub_vec(cs: &[char], from: usize, to: usize) -> (r: Vec<char>)
    requires
        from <= to <= cs@.len(),
    ensures
        r@ == cs@.subrange(from as int, to as int),
{
    let mut r: Vec<char> = Vec::new();
    let mut i = from;
    while i < to
        invariant
            from <= i <= to <= cs@.len(),
            r@ == cs@.subrange(from as int, i as int),
        decreases to - i,
    {
        r.push(cs[i]);
        i += 1;
    }
    r
}

/// Equality of two character sequences.
pub fn chars_eq(a: &[char], b: &[char]) -> (r: bool)
    ensures
        r == (a@ == b@),
{
    if a.len() != b.len() {
        return false;
    }
    let mut i: usize = 0;
    while i < a.len()
        invariant
            i <= a@.len() == b@.len(),
            forall|j: int| 0 <= j < i ==> a@[j] == b@[j],
        decreases a@.len() - i,
    {
        if a[i] != b[i] {
            return false;
        }
        i += 1;
    }
    proof {
        assert(a@ =~= b@);
    }
    true
}

/// `pat` occurs in `cs` at position `i`.
pub fn occurs_at_exec(cs: &[char], pat: &[char], i: usize) -> (r: bool)
    ensures
        r == occurs_at(cs@, pat@, i as int),
{
    if i > cs.len() || pat.len() > cs.len() - i {
        return false;
    }
    let mut j: usize = 0;
    while j < pat.len()
        invariant
            j <= pat@.len(),
            i <= cs@.len(),
            cs@.len() <= usize::MAX,
            i + pat@.len() <= cs@.len(),
            forall|k: int| 0 <= k < j ==> cs@[i + k] == pat@[k],
        decreases pat@.len() - j,
    {
        if cs[i + j] != pat[j] {
            proof {
                assert(cs@.subrange(i as int, i + pat@.len())[j as int] == cs@[i + j]);
            }
            return false;
        }
        j += 1;
    }
    proof {
        assert(cs@.subrange(i as int, i + pat@.len()) =~= pat@);
    }
    true
}

/// `str::contains` for a string pattern.
pub fn contains_chars(hay: &[char], needle: &[char]) -> (r: bool)
    ensures
        r == contains_seq(hay@, needle@),
{
    if needle.len() > hay.len() {
        proof {
            assert forall|i: int| !occurs_at(hay@, needle@, i) by {}
        }
        return false;
    }
    let last = hay.len() - needle.len();
    let mut i: usize = 0;
    loop
        invariant
            last == hay@.len() - needle@.len(),
            i <= last,
            forall|k: int| 0 <= k < i ==> !occurs_at(hay@, needle@, k),
        decreases last - i,
    {
        if occurs_at_exec(hay, needle, i) {
            return true;
        }
        if i == last {
            proof {
                assert forall|k: int| !occurs_at(hay@, needle@, k) by {
                    if 0 <= k < i {
                    } else if k == i {
                    } else {
                    }
                }
            }
            return false;
        }
        i += 1;
    }
}

/// Position of the last occurrence of `pat` in `cs`.
pub fn last_occurrence_exec(cs: &[char], pat: &[char]) -> (r: Option<usize>)
    ensures
        match r {
            Some(i) => last_occurrence(cs@, pat@) == Some(i as int),
            None => last_occurrence(cs@, pat@) is None,
        },
{
    if pat.len() > cs.len() {
        return None;
    }
    let mut i: usize = cs.len() - pat.len();
    loop
        invariant
            i <= cs@.len() - pat@.len(),
            last_occurrence(cs@, pat@) == last_occurrence_from(cs@, pat@, i as int),
        decreases i,
    {
        if occurs_at_exec(cs, pat, i) {
            return Some(i);
        }
        if i == 0 {
            proof {
                assert(last_occurrence_from(cs@, pat@, -1) is None);
            }
            return None;
        }
        i -= 1;
    }
}

/// Every `from` replaced by `to`.
pub fn replace_char_exec(cs: &[char], from: char, to: char) -> (r: Vec<char>)
    ensures
        r@ == replace_char(cs@, from, to),
{
    let mut r: Vec<char> = Vec::new();
    let mut i: usize = 0;
    while i < cs.len()
        invariant
            i <= cs@.len(),
            r@ == replace_char(cs@.take(i as int), from, to),
        decreases cs@.len() - i,
    {
        let c = cs[i];
        r.push(if c == from { to } else { c });
        i += 1;
        proof {
            assert(r@ =~= replace_char(cs@.take(i as int), from, to));
        }
    }
    proof {
        assert(cs@.take(i as int) =~= cs@);
    }
    r
}

/// `p` is a prefix of `cs`.
pub fn has_prefix_exec(cs: &[char], p: &[char]) -> (r: bool)
    ensures
        r == has_prefix(cs@, p@),
{
    if p.len() > cs.len() {
        return false;
    }
    let r = occurs_at_exec(cs, p, 0);
    proof {
        assert(cs@.subrange(0, p@.len() as int) =~= cs@.take(p@.len() as int));
    }
    r
}

/// `str::trim_start_matches(pat)` for a non-empty string pattern.
pub fn trim_start_seq_exec(cs: &[char], pat: &[char]) -> (r: Vec<char>)
    requires
        pat@.len() > 0,
    ensures
        r@ == trim_start_seq(cs@, pat@),
{
    let mut i: usize = 0;
    proof {
        assert(cs@.skip(0) =~= cs@);
    }
    loop
        invariant
            i <= cs@.len(),
            pat@.len() > 0,
            trim_start_seq(cs@, pat@) == trim_start_seq(cs@.skip(i as int), pat@),
        decreases cs@.len() - i,
    {
        let ghost rest = cs@.skip(i as int);
        if pat.len() <= cs.len() - i && occurs_at_exec(cs, pat, i) {
            proof {
                assert(rest.take(pat@.len() as int) =~= cs@.subrange(i as int, i + pat@.len()));
                assert(rest.skip(pat@.len() as int) =~= cs@.skip(i + pat@.len()));
            }
            i = i + pat.len();
        } else {
            proof {
                if has_prefix(rest, pat@) {
                    assert(rest.take(pat@.len() as int) =~= cs@.subrange(
                        i as int,
                        i + pat@.len(),
                    ));
                }
            }
            let r = sub_vec(cs, i, cs.len());
            proof {
                assert(r@ =~= rest);
            }
            return r;
        }
    }
}

/// Index range left after dropping `c` at the front (when `front`) and at the
/// back (when `back`).
fn trim_range(cs: &[char], c: char, front: bool, back: bool) -> (r: (usize, usize))
    ensures
        r.0 <= r.1 <= cs@.len(),
        front ==> trim_start_by(cs@, eq_char(c)) == cs@.subrange(r.0 as int, cs@.len() as int),
        !front ==> r.0 == 0,
        back ==> trim_end_by(cs@.subrange(r.0 as int, cs@.len() as int), eq_char(c))
            == cs@.subrange(r.0 as int, r.1 as int),
        !back ==> r.1 == cs@.len(),
{
    let mut start: usize = 0;
    if front {
        while start < cs.len() && cs[start] == c
            invariant
                start <= cs@.len(),
                forall|j: int| 0 <= j < start ==> cs@[j] == c,
            decreases cs@.len() - start,
        {
            start += 1;
        }
        proof {
            lemma_trim_start_at(cs@, eq_char(c), start as int);
        }
    }
    let mut end = cs.len();
    if back {
        while end > start && cs[end - 1] == c
            invariant
                start <= end <= cs@.len(),
                forall|j: int| end <= j < cs@.len() ==> cs@[j] == c,
            decreases end,
        {
            end -= 1;
        }
        let ghost t = cs@.subrange(start as int, cs@.len() as int);
        proof {
            assert forall|j: int| end - start <= j < t.len() implies (eq_char(c))(
                #[trigger] t[j],
            ) by {
                assert(t[j] == cs@[j + start]);
            }
            if end > start {
                assert(t[end - start - 1] == cs@[end - 1]);
            }
            lemma_trim_end_at(t, eq_char(c), end - start);
            assert(t.take(end - start) =~= cs@.subrange(start as int, end as int));
        }
    }
    (start, end)
}

/// `str::trim_matches(c)`.
pub fn trim_char_exec(cs: &[char], c: char) -> (r: Vec<char>)
    ensures
        r@ == trim_char(cs@, c),
{
    let (a, b) = trim_range(cs, c, true, true);
    sub_vec(cs, a, b)
}

/// `str::trim_end_matches(c)`.
pub fn trim_end_char_exec(cs: &[char], c: char) -> (r: Vec<char>)
    ensures
        r@ == trim_end_char(cs@, c),
{
    let (a, b) = trim_range(cs, c, false, true);
    proof {
        assert(cs@.subrange(0, cs@.len() as int) =~= cs@);
    }
    sub_vec(cs, a, b)
}

/// `str::trim_start_matches(c)`.
pub fn trim_start_char_exec(cs: &[char], c: char) -> (r: Vec<char>)
    ensures
        r@ == trim_start_char(cs@, c),
{
    let (a, b) = trim_range(cs, c, true, false);
    sub_vec(cs, a, b)
}


/// Equality of two strings by their characters.
pub fn str_eq(a: &str, b: &str) -> (r: bool)
    ensures
        r == (a@ == b@),
{
    let ca = chars_of(a);
    let cb = chars_of(b);
    chars_eq(ca.as_slice(), cb.as_slice())
}

/// Number of bytes UTF-8 uses for `c` (`char::len_utf8`).
pub fn utf8_width_exec(c: char) -> (w: usize)
    ensures
        w == utf8_width(c),
{
    let v = c as u32;
    if v < 0x80 {
        1
    } else if v < 0x800 {
        2
    } else if v < 0x10000 {
        3
    } else {
        4
    }
}

pub proof fn lemma_byte_len_step(s: Seq<char>, k: int)
    requires
        0 <= k < s.len(),
    ensures
        byte_len(s.take(k + 1)) == byte_len(s.take(k)) + utf8_width(s[k]),
{
    assert(s.take(k + 1).drop_last() =~= s.take(k));
}

pub proof fn lemma_byte_len_mono(s: Seq<char>, k: int)
    requires
        0 <= k <= s.len(),
    ensures
        byte_len(s.take(k)) <= byte_len(s),
        byte_len(s.take(k)) >= k,
    decreases s.len() - k,
{
    lemma_byte_len_at_least_len(s.take(k));
    if k < s.len() {
        lemma_byte_len_step(s, k);
        lemma_byte_len_mono(s, k + 1);
    } else {
        assert(s.take(k) =~= s);
    }
}

pub proof fn lemma_byte_len_at_least_len(s: Seq<char>)
    ensures
        byte_len(s) >= s.len(),
    decreases s.len(),
{
    if s.len() > 0 {
        lemma_byte_len_at_least_len(s.drop_last());
    }
}

/// `str::len` (the number of UTF-8 bytes) of a character sequence.
pub fn byte_len_exec(cs: &[char]) -> (n: usize)
    requires
        byte_len(cs@) <= usize::MAX,
    ensures
        n == byte_len(cs@),
{
    let mut n: usize = 0;
    let mut k: usize = 0;
    while k < cs.len()
        invariant
            k <= cs@.len(),
            n == byte_len(cs@.take(k as int)),
            byte_len(cs@) <= usize::MAX,
        decreases cs@.len() - k,
    {
        proof {
            lemma_byte_len_step(cs@, k as int);
            lemma_byte_len_mono(cs@, k + 1);
        }
        n = n + utf8_width_exec(cs[k]);
        k += 1;
    }
    proof {
        assert(cs@.take(k as int) =~= cs@);
    }
    n
}


/// Position of the first occurrence of `pat` at or after `i`.
pub open spec fn first_occurrence_from(s: Seq<char>, pat: Seq<char>, i: int) -> Option<int>
    decreases s.len() + 1 - i,
{
    if i < 0 || i + pat.len() > s.len() {
        None
    } else if occurs_at(s, pat, i) {
        Some(i)
    } else {
        first_occurrence_from(s, pat, i + 1)
    }
}

/// The views of a sequence of character vectors.
pub open spec fn char_views(v: Seq<Vec<char>>) -> Seq<Seq<char>> {
    v.map_values(|x: Vec<char>| x@)
}

/// Position of the first occurrence of `pat` at or after `from`.
pub fn first_occurrence_exec(cs: &[char], pat: &[char], from: usize) -> (r: Option<usize>)
    requires
        pat@.len() > 0,
    ensures
        match r {
            Some(i) => first_occurrence_from(cs@, pat@, from as int) == Some(i as int),
            None => first_occurrence_from(cs@, pat@, from as int) is None,
        },
{
    let mut i = from;
    while i <= cs.len() && pat.len() <= cs.len() - i
        invariant
            from <= i,
            pat@.len() > 0,
            first_occurrence_from(cs@, pat@, from as int) == first_occurrence_from(cs@, pat@, i as int),
        decreases cs@.len() + 1 - i,
    {
        if occurs_at_exec(cs, pat, i) {
            return Some(i);
        }
        i += 1;
    }
    None
}

/// `str::split(c)`: the pieces between occurrences of `c`.
pub fn split_chars(cs: &[char], c: char) -> (r: Vec<Vec<char>>)
    ensures
        char_views(r@) == split_spec(cs@, c),
{
    let mut r: Vec<Vec<char>> = Vec::new();
    let mut pos: usize = 0;
    proof {
        assert(cs@.skip(0) =~= cs@);
        assert(char_views(r@) + split_spec(cs@, c) =~= split_spec(cs@, c));
    }
    loop
        invariant
            pos <= cs@.len(),
            split_spec(cs@, c) == char_views(r@) + split_spec(cs@.skip(pos as int), c),
        decreases cs@.len() - pos,
    {
        let ghost rest = cs@.skip(pos as int);
        let ghost old_r = char_views(r@);
        let j = find_char(cs, c, pos);
        proof {
            lemma_find_shift(cs@, c, pos as int);
        }
        let piece = sub_vec(cs, pos, j);
        r.push(piece);
        proof {
            assert(char_views(r@) =~= old_r.push(piece@));
        }
        if j == cs.len() {
            proof {
                assert(rest =~= cs@.subrange(pos as int, j as int));
                assert(split_spec(rest, c) == seq![rest]);
                assert(char_views(r@) =~= old_r + seq![rest]);
            }
            return r;
        }
        proof {
            assert(rest.take(j - pos) =~= cs@.subrange(pos as int, j as int));
            assert(rest.skip(j - pos + 1) =~= cs@.skip(j + 1));
            assert(split_spec(rest, c) == seq![rest.take(j - pos)] + split_spec(
                rest.skip(j - pos + 1),
                c,
            ));
            assert(old_r + (seq![piece@] + split_spec(cs@.skip(j + 1), c)) =~= char_views(r@)
                + split_spec(cs@.skip(j + 1), c));
        }
        pos = j + 1;
    }
}

} // verus!
