//! Character sequences: the vocabulary in which the diagnostics grammar is
//! stated, and slice functions proved to compute it.

use vstd::prelude::*;
use vstd::slice::*;

verus! {

/// Unicode `White_Space`.
pub open spec fn is_space(c: char) -> bool {
    let u = c as u32;
    ||| 0x09 <= u <= 0x0D
    ||| u == 0x20
    ||| u == 0x85
    ||| u == 0xA0
    ||| u == 0x1680
    ||| 0x2000 <= u <= 0x200A
    ||| u == 0x2028
    ||| u == 0x2029
    ||| u == 0x202F
    ||| u == 0x205F
    ||| u == 0x3000
}

/// `s` without its leading white space.
pub open spec fn trim_start(s: Seq<char>) -> Seq<char>
    decreases s.len(),
{
    if s.len() > 0 && is_space(s[0]) {
        trim_start(s.drop_first())
    } else {
        s
    }
}

/// `s` without its trailing white space.
pub open spec fn trim_end(s: Seq<char>) -> Seq<char>
    decreases s.len(),
{
    if s.len() > 0 && is_space(s.last()) {
        trim_end(s.drop_last())
    } else {
        s
    }
}

/// `s` without white space at either end.
pub open spec fn trim(s: Seq<char>) -> Seq<char> {
    trim_end(trim_start(s))
}

/// Whether `s` begins with `p`.
pub open spec fn starts_with(s: Seq<char>, p: Seq<char>) -> bool {
    p.len() <= s.len() && s.take(p.len() as int) == p
}

/// Whether `s` ends with `p`.
pub open spec fn ends_with(s: Seq<char>, p: Seq<char>) -> bool {
    p.len() <= s.len() && s.skip(s.len() - p.len()) == p
}

/// `s` without the prefix `p`, or `s` itself where it does not begin with `p`.
pub open spec fn without_prefix(s: Seq<char>, p: Seq<char>) -> Seq<char> {
    if starts_with(s, p) {
        s.skip(p.len() as int)
    } else {
        s
    }
}

/// `s` without the suffix `p`, or `s` itself where it does not end with `p`.
pub open spec fn without_suffix(s: Seq<char>, p: Seq<char>) -> Seq<char> {
    if ends_with(s, p) {
        s.take(s.len() - p.len())
    } else {
        s
    }
}

/// `s` with every repetition of the suffix `p` removed.
pub open spec fn trim_end_matches(s: Seq<char>, p: Seq<char>) -> Seq<char>
    decreases s.len(),
{
    if p.len() > 0 && ends_with(s, p) {
        trim_end_matches(s.take(s.len() - p.len()), p)
    } else {
        s
    }
}

/// Index of the first `c` in `s`, or the length of `s` where there is none.
pub open spec fn first_index(s: Seq<char>, c: char) -> int
    decreases s.len(),
{
    if s.len() == 0 || s[0] == c {
        0
    } else {
        1 + first_index(s.drop_first(), c)
    }
}

/// Whether `c` occurs in `s`.
pub open spec fn occurs(s: Seq<char>, c: char) -> bool {
    first_index(s, c) < s.len()
}

/// What stands before the first `c` in `s`; all of `s` where there is none.
pub open spec fn before(s: Seq<char>, c: char) -> Seq<char> {
    s.take(first_index(s, c))
}

/// What follows the first `c` in `s`; requires that `c` occurs.
pub open spec fn after(s: Seq<char>, c: char) -> Seq<char>
    recommends
        occurs(s, c),
{
    s.skip(first_index(s, c) + 1)
}

/// The pieces of `s` between occurrences of `c`: one more than there are
/// occurrences, empty pieces included.
pub open spec fn split(s: Seq<char>, c: char) -> Seq<Seq<char>>
    decreases s.len(),
{
    let i = first_index(s, c);
    if 0 <= i < s.len() {
        seq![s.take(i)] + split(s.skip(i + 1), c)
    } else {
        seq![s]
    }
}

/// Whether `s` holds white space only.
pub open spec fn all_space(s: Seq<char>) -> bool {
    forall|i: int| 0 <= i < s.len() ==> is_space(#[trigger] s[i])
}

/// The pieces of a text, joined by the separator.
pub open spec fn join(pieces: Seq<Seq<char>>, c: char) -> Seq<char>
    decreases pieces.len(),
{
    if pieces.len() == 0 {
        Seq::empty()
    } else if pieces.len() == 1 {
        pieces[0]
    } else {
        pieces[0] + seq![c] + join(pieces.drop_first(), c)
    }
}

/// Whether `c` is white space.
pub fn space(c: char) -> (b: bool)
    ensures
        b == is_space(c),
{
    let u: u32 = c as u32;
    (0x09 <= u && u <= 0x0D) || u == 0x20 || u == 0x85 || u == 0xA0 || u == 0x1680 || (0x2000 <= u
        && u <= 0x200A) || u == 0x2028 || u == 0x2029 || u == 0x202F || u == 0x205F || u == 0x3000
}

/// The slice without its leading white space.
pub fn trimmed_start<'a>(s: &'a [char]) -> (t: &'a [char])
    ensures
        t@ == trim_start(s@),
{
    let mut i: usize = 0;
    proof {
        assert(s@.skip(0) =~= s@);
    }
    while i < s.len() && space(s[i])
        invariant
            i <= s.len(),
            trim_start(s@) == trim_start(s@.skip(i as int)),
        decreases s.len() - i,
    {
        proof {
            assert(s@.skip(i as int).drop_first() =~= s@.skip(i + 1));
        }
        i += 1;
    }
    slice_subrange(s, i, s.len())
}

/// The slice without its trailing white space.
pub fn trimmed_end<'a>(s: &'a [char]) -> (t: &'a [char])
    ensures
        t@ == trim_end(s@),
{
    let mut n: usize = s.len();
    proof {
        assert(s@.take(s.len() as int) =~= s@);
    }
    while n > 0 && space(s[n - 1])
        invariant
            n <= s.len(),
            trim_end(s@) == trim_end(s@.take(n as int)),
        decreases n,
    {
        proof {
            assert(s@.take(n as int).drop_last() =~= s@.take(n - 1));
        }
        n -= 1;
    }
    slice_subrange(s, 0, n)
}

/// The slice without white space at either end.
pub fn trimmed<'a>(s: &'a [char]) -> (t: &'a [char])
    ensures
        t@ == trim(s@),
{
    trimmed_end(trimmed_start(s))
}

/// Whether two slices hold the same characters.
pub fn same(a: &[char], b: &[char]) -> (r: bool)
    ensures
        r == (a@ == b@),
{
    if a.len() != b.len() {
        return false;
    }
    let mut i: usize = 0;
    while i < a.len()
        invariant
            i <= a.len(),
            a.len() == b.len(),
            a@.take(i as int) == b@.take(i as int),
        decreases a.len() - i,
    {
        if a[i] != b[i] {
            return false;
        }
        proof {
            assert(a@.take(i + 1) =~= a@.take(i as int).push(a@[i as int]));
            assert(b@.take(i + 1) =~= b@.take(i as int).push(b@[i as int]));
        }
        i += 1;
    }
    proof {
        assert(a@.take(a.len() as int) =~= a@);
        assert(b@.take(b.len() as int) =~= b@);
    }
    true
}

/// Whether `s` begins with `p`.
pub fn begins_with(s: &[char], p: &[char]) -> (r: bool)
    ensures
        r == starts_with(s@, p@),
{
    if p.len() > s.len() {
        return false;
    }
    same(slice_subrange(s, 0, p.len()), p)
}

/// Whether `s` ends with `p`.
pub fn finishes_with(s: &[char], p: &[char]) -> (r: bool)
    ensures
        r == ends_with(s@, p@),
{
    if p.len() > s.len() {
        return false;
    }
    same(slice_subrange(s, s.len() - p.len(), s.len()), p)
}

/// `s` without the prefix `p`, where it has it.
pub fn strip_start<'a>(s: &'a [char], p: &[char]) -> (t: &'a [char])
    ensures
        t@ == without_prefix(s@, p@),
{
    if begins_with(s, p) {
        slice_subrange(s, p.len(), s.len())
    } else {
        s
    }
}

/// `s` without the suffix `p`, where it has it.
pub fn strip_end<'a>(s: &'a [char], p: &[char]) -> (t: &'a [char])
    ensures
        t@ == without_suffix(s@, p@),
{
    if finishes_with(s, p) {
        slice_subrange(s, 0, s.len() - p.len())
    } else {
        s
    }
}

/// `s` without any repetition of the suffix `p`.
pub fn strip_end_repeated<'a>(s: &'a [char], p: &[char]) -> (t: &'a [char])
    ensures
        t@ == trim_end_matches(s@, p@),
{
    let mut t: &'a [char] = s;
    if p.len() == 0 {
        return t;
    }
    while finishes_with(t, p)
        invariant
            p.len() > 0,
            trim_end_matches(s@, p@) == trim_end_matches(t@, p@),
        decreases t.len(),
    {
        t = slice_subrange(t, 0, t.len() - p.len());
    }
    t
}

/// Index of the first `c` in `s`, or the length of `s`.
pub fn find(s: &[char], c: char) -> (i: usize)
    ensures
        i == first_index(s@, c),
        i <= s.len(),
{
    let mut i: usize = 0;
    while i < s.len() && s[i] != c
        invariant
            i <= s.len(),
            forall|j: int| 0 <= j < i ==> s@[j] != c,
        decreases s.len() - i,
    {
        i += 1;
    }
    proof {
        lemma_first_index_is(s@, c, i as int);
    }
    i
}

/// The characters of `s`, in order.
pub fn chars_of(s: &str) -> (v: Vec<char>)
    ensures
        v@ == s@,
{
    let mut v: Vec<char> = Vec::new();
    for c in it: s.chars()
        invariant
            it.seq() == s@,
            v@ == s@.take(it.index() as int),
    {
        v.push(c);
        proof {
            assert(s@.take(it.index() + 1) =~= s@.take(it.index() as int).push(c));
        }
    }
    proof {
        assert(s@.take(s@.len() as int) =~= s@);
    }
    v
}

/// `String::push` appends one character.
pub assume_specification[ String::push ](s: &mut String, ch: char)
    ensures
        final(s)@ == old(s)@.push(ch),
;

/// A string of the characters of `s`.
pub fn string_of(s: &[char]) -> (r: String)
    ensures
        r@ == s@,
{
    let mut r = String::new();
    let mut i: usize = 0;
    while i < s.len()
        invariant
            i <= s.len(),
            r@ == s@.take(i as int),
        decreases s.len() - i,
    {
        r.push(s[i]);
        proof {
            assert(s@.take(i + 1) =~= s@.take(i as int).push(s@[i as int]));
        }
        i += 1;
    }
    proof {
        assert(s@.take(s.len() as int) =~= s@);
    }
    r
}

/// `first_index` is the least index that holds `c`.
pub proof fn lemma_first_index(s: Seq<char>, c: char)
    ensures
        0 <= first_index(s, c) <= s.len(),
        forall|j: int| 0 <= j < first_index(s, c) ==> s[j] != c,
        first_index(s, c) < s.len() ==> s[first_index(s, c)] == c,
    decreases s.len(),
{
    if s.len() == 0 || s[0] == c {
    } else {
        let t = s.drop_first();
        lemma_first_index(t, c);
        assert forall|j: int| 0 <= j < first_index(s, c) implies s[j] != c by {
            if j > 0 {
                assert(s[j] == t[j - 1]);
            }
        }
        if first_index(s, c) < s.len() {
            assert(s[first_index(s, c)] == t[first_index(t, c)]);
        }
    }
}

/// An index that holds `c`, or the length, below which no `c` stands is `first_index`.
pub proof fn lemma_first_index_is(s: Seq<char>, c: char, i: int)
    requires
        0 <= i <= s.len(),
        forall|j: int| 0 <= j < i ==> s[j] != c,
        i < s.len() ==> s[i] == c,
    ensures
        first_index(s, c) == i,
{
    lemma_first_index(s, c);
    let k = first_index(s, c);
    if k < i {
        assert(s[k] == c);
    } else if i < k {
        assert(s[i] == c);
    }
}

/// A split is never empty, and begins with what stands before the first separator.
pub proof fn lemma_split_first(s: Seq<char>, c: char)
    ensures
        split(s, c).len() >= 1,
        split(s, c)[0] == before(s, c),
        split(s, c).len() == 1 <==> !occurs(s, c),
    decreases s.len(),
{
    lemma_first_index(s, c);
    let i = first_index(s, c);
    if i < s.len() {
        lemma_split_first(s.skip(i + 1), c);
    } else {
        assert(s.take(i) =~= s);
    }
}

/// Trimming at the start never lengthens.
pub proof fn lemma_trim_start_shorter(s: Seq<char>)
    ensures
        trim_start(s).len() <= s.len(),
    decreases s.len(),
{
    if s.len() > 0 && is_space(s[0]) {
        lemma_trim_start_shorter(s.drop_first());
    }
}

/// Leading white space is trimmed away in front of what begins a word.
pub proof fn lemma_trim_start_of_indented(lead: Seq<char>, s: Seq<char>)
    requires
        all_space(lead),
        s.len() == 0 || !is_space(s[0]),
    ensures
        trim_start(lead + s) == s,
    decreases lead.len(),
{
    if lead.len() == 0 {
        assert(lead + s =~= s);
    } else {
        assert((lead + s)[0] == lead[0]);
        assert((lead + s).drop_first() =~= lead.drop_first() + s);
        assert(all_space(lead.drop_first())) by {
            assert forall|i: int| 0 <= i < lead.drop_first().len() implies is_space(
                #[trigger] lead.drop_first()[i],
            ) by {
                assert(lead.drop_first()[i] == lead[i + 1]);
            }
        }
        lemma_trim_start_of_indented(lead.drop_first(), s);
    }
}

/// What is trimmed at the end is a prefix, empty exactly for white space,
/// and ends in no white space.
pub proof fn lemma_trim_end_is_prefix(s: Seq<char>)
    ensures
        trim_end(s).len() <= s.len(),
        trim_end(s) == s.take(trim_end(s).len() as int),
        trim_end(s).len() == 0 <==> all_space(s),
        trim_end(s).len() > 0 ==> !is_space(trim_end(s).last()),
        forall|i: int| 0 <= i < s.len() && !is_space(s[i]) ==> i < trim_end(s).len(),
    decreases s.len(),
{
    if s.len() > 0 && is_space(s.last()) {
        let t = s.drop_last();
        lemma_trim_end_is_prefix(t);
        assert(t.take(trim_end(t).len() as int) =~= s.take(trim_end(t).len() as int));
        if all_space(t) {
            assert forall|i: int| 0 <= i < s.len() implies is_space(#[trigger] s[i]) by {
                if i < t.len() {
                    assert(s[i] == t[i]);
                }
            }
        }
        if all_space(s) {
            assert forall|i: int| 0 <= i < t.len() implies is_space(#[trigger] t[i]) by {
                assert(t[i] == s[i]);
            }
        }
        assert forall|i: int| 0 <= i < s.len() && !is_space(s[i]) implies i < trim_end(s).len() by {
            assert(t[i] == s[i]);
        }
    } else {
        assert(s.take(s.len() as int) =~= s);
        if s.len() > 0 {
            assert(!is_space(s[s.len() - 1]));
        }
    }
}

/// Trailing white space is trimmed away behind what ends a word.
pub proof fn lemma_trim_end_after_word(s: Seq<char>, rest: Seq<char>)
    requires
        s.len() > 0,
        !is_space(s.last()),
    ensures
        trim_end(s + rest) == s + trim_end(rest),
    decreases rest.len(),
{
    if rest.len() == 0 {
        assert(s + rest =~= s);
        assert(s + trim_end(rest) =~= s);
    } else {
        assert((s + rest).last() == rest.last());
        if is_space(rest.last()) {
            assert((s + rest).drop_last() =~= s + rest.drop_last());
            lemma_trim_end_after_word(s, rest.drop_last());
        }
    }
}

/// Trimming leaves a word in place that the text begins with.
pub proof fn lemma_trim_keeps_first_word(s: Seq<char>, word: Seq<char>)
    requires
        starts_with(s, word),
        word.len() > 0,
        !is_space(word[0]),
        !is_space(word.last()),
    ensures
        starts_with(trim(s), word),
{
    assert(s.take(word.len() as int)[0] == s[0]);
    assert(trim_start(s) == s);
    lemma_trim_end_is_prefix(s);
    let last = word.len() - 1;
    assert(s.take(word.len() as int)[last] == s[last]);
    assert(trim_end(s).take(word.len() as int) =~= s.take(word.len() as int));
}

/// What is trimmed at the start is a suffix that begins with no white
/// space, and only white space stands before it.
pub proof fn lemma_trim_start_is_suffix(s: Seq<char>)
    ensures
        trim_start(s).len() <= s.len(),
        trim_start(s) == s.skip(s.len() - trim_start(s).len()),
        all_space(s.take(s.len() - trim_start(s).len())),
        trim_start(s).len() > 0 ==> !is_space(trim_start(s)[0]),
    decreases s.len(),
{
    if s.len() > 0 && is_space(s[0]) {
        let t = s.drop_first();
        lemma_trim_start_is_suffix(t);
        let cut = s.len() - trim_start(s).len();
        assert(t.skip(t.len() - trim_start(t).len()) =~= s.skip(cut));
        assert forall|i: int| 0 <= i < cut implies is_space(#[trigger] s.take(cut)[i]) by {
            if i > 0 {
                assert(s.take(cut)[i] == t.take(cut - 1)[i - 1]);
            }
        }
    } else {
        assert(s.skip(0) =~= s);
    }
}

/// Trimming leaves the part of a text between its first and its last
/// character that is no white space; nothing of a text that is all white
/// space.
pub proof fn lemma_trim_is_the_core(s: Seq<char>)
    ensures
        trim(s).len() == 0 <==> all_space(s),
        trim(s).len() > 0 ==> !is_space(trim(s)[0]) && !is_space(trim(s).last()),
        exists|from: int, to: int|
            0 <= from <= to <= s.len() && trim(s) == s.subrange(from, to) && all_space(
                s.take(from),
            ) && all_space(s.skip(to)),
{
    let inner = trim_start(s);
    lemma_trim_start_is_suffix(s);
    lemma_trim_end_is_prefix(inner);
    let from = s.len() - inner.len();
    let to = from + trim(s).len();
    assert(inner.take(trim(s).len() as int) =~= s.subrange(from, to));
    assert(all_space(s.skip(to))) by {
        assert forall|i: int| 0 <= i < s.skip(to).len() implies is_space(
            #[trigger] s.skip(to)[i],
        ) by {
            let at = to - from + i;
            assert(s.skip(to)[i] == inner[at]);
            if !is_space(inner[at]) {
                assert(at < trim_end(inner).len());
            }
        }
    }
    if trim(s).len() > 0 {
        assert(trim(s)[0] == inner.take(trim(s).len() as int)[0]);
    }
    if all_space(s) {
        assert forall|i: int| 0 <= i < inner.len() implies is_space(#[trigger] inner[i]) by {
            assert(inner[i] == s[from + i]);
        }
    }
    if all_space(inner) {
        assert forall|i: int| 0 <= i < s.len() implies is_space(#[trigger] s[i]) by {
            if i < from {
                assert(s[i] == s.take(from)[i]);
            } else {
                assert(s[i] == inner[i - from]);
            }
        }
    }
}

/// No piece of a split holds the separator, and the pieces joined by the
/// separator are the text.
pub proof fn lemma_split_is_exact(s: Seq<char>, c: char)
    ensures
        forall|k: int, i: int|
            0 <= k < split(s, c).len() && 0 <= i < split(s, c)[k].len() ==> #[trigger] split(
                s,
                c,
            )[k][i] != c,
        join(split(s, c), c) == s,
    decreases s.len(),
{
    lemma_first_index(s, c);
    let at = first_index(s, c);
    let pieces = split(s, c);
    if at < s.len() {
        let later = split(s.skip(at + 1), c);
        lemma_split_is_exact(s.skip(at + 1), c);
        lemma_split_first(s.skip(at + 1), c);
        assert(pieces =~= seq![s.take(at)] + later);
        assert(pieces.drop_first() =~= later);
        assert(s.take(at) + seq![c] + s.skip(at + 1) =~= s);
        assert forall|k: int, i: int|
            0 <= k < pieces.len() && 0 <= i < pieces[k].len() implies #[trigger] pieces[k][i]
            != c by {
            if k == 0 {
                assert(pieces[0][i] == s[i]);
            } else {
                assert(pieces[k] == later[k - 1]);
            }
        }
    } else {
        assert(pieces =~= seq![s]);
    }
}

/// A word between white space is what trimming leaves.
pub proof fn lemma_trim_of_padded(lead: Seq<char>, word: Seq<char>, trail: Seq<char>)
    requires
        all_space(lead),
        all_space(trail),
        word.len() > 0,
        !is_space(word[0]),
        !is_space(word.last()),
    ensures
        trim(lead + word + trail) == word,
{
    assert(lead + word + trail =~= lead + (word + trail));
    assert((word + trail)[0] == word[0]);
    lemma_trim_start_of_indented(lead, word + trail);
    lemma_trim_end_after_word(word, trail);
    lemma_trim_end_is_prefix(trail);
    assert(word + trim_end(trail) =~= word);
}

/// The last piece of a text is the last piece of what follows any of its
/// separators.
pub proof fn lemma_split_last(front: Seq<char>, back: Seq<char>, c: char)
    ensures
        split(front + seq![c] + back, c).last() == split(back, c).last(),
    decreases front.len(),
{
    let s = front + seq![c] + back;
    lemma_first_index(s, c);
    lemma_split_first(back, c);
    let i = first_index(s, c);
    assert(s[front.len() as int] == c);
    if i == front.len() {
        assert(s.skip(i + 1) =~= back);
        assert(split(s, c) =~= seq![s.take(i)] + split(back, c));
    } else {
        let shorter = front.skip(i + 1);
        assert(s.skip(i + 1) =~= shorter + seq![c] + back);
        lemma_split_last(shorter, back, c);
        lemma_split_first(s.skip(i + 1), c);
        assert(split(s, c) =~= seq![s.take(i)] + split(s.skip(i + 1), c));
    }
}

/// A text without the separator is its own only piece.
pub proof fn lemma_split_of_one_piece(s: Seq<char>, c: char)
    requires
        forall|i: int| 0 <= i < s.len() ==> s[i] != c,
    ensures
        split(s, c) == seq![s],
{
    lemma_first_index_is(s, c, s.len() as int);
}

/// Where `c` is not in `a` and `b` is empty or begins with `c`, the first
/// `c` of `a + b` stands where `b` begins.
pub proof fn lemma_first_index_at_joint(a: Seq<char>, b: Seq<char>, c: char)
    requires
        forall|i: int| 0 <= i < a.len() ==> a[i] != c,
        b.len() == 0 || b[0] == c,
    ensures
        first_index(a + b, c) == a.len(),
{
    assert forall|j: int| 0 <= j < a.len() implies (a + b)[j] != c by {
        assert((a + b)[j] == a[j]);
    }
    if b.len() > 0 {
        assert((a + b)[a.len() as int] == b[0]);
    }
    lemma_first_index_is(a + b, c, a.len() as int);
}

} // verus!
