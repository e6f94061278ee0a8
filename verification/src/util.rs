//! String utilities shared by the synchronization engine: filesystem-safe
//! name sanitization, character-indexed slicing, decimal formatting, and the
//! FIFO work queue that the worker pool drains.

use vstd::multiset::Multiset;
use vstd::prelude::*;

verus! {

/// Relies on std's `String::push`: appends one character to the string.
#[verifier::external_body]
pub(crate) fn push_char(s: &mut String, c: char)
    ensures
        final(s)@ == old(s)@.push(c),
{
    s.push(c);
}

/// Character-by-character equality of two string slices.
pub fn str_eq(a: &str, b: &str) -> (r: bool)
    ensures
        r == (a@ == b@),
{
    let alen = a.unicode_len();
    let blen = b.unicode_len();
    if alen != blen {
        return false;
    }
    let mut i: usize = 0;
    while i < alen
        invariant
            i <= alen,
            alen == a@.len(),
            alen == b@.len(),
            forall|j: int| 0 <= j < i ==> a@[j] == b@[j],
        decreases alen - i,
    {
        if a.get_char(i) != b.get_char(i) {
            return false;
        }
        i += 1;
    }
    proof {
        assert(a@ =~= b@);
    }
    true
}

/// Index of the first occurrence of `c` in `s`, or `s.len()` when `c` does
/// not occur.
pub open spec fn find_char(s: Seq<char>, c: char) -> int
    decreases s.len(),
{
    if s.len() == 0 {
        0
    } else if s[0] == c {
        0
    } else {
        1 + find_char(s.drop_first(), c)
    }
}

pub proof fn lemma_find_char(s: Seq<char>, c: char)
    ensures
        0 <= find_char(s, c) <= s.len(),
        forall|j: int| 0 <= j < find_char(s, c) ==> s[j] != c,
        find_char(s, c) < s.len() ==> s[find_char(s, c)] == c,
    decreases s.len(),
{
    if s.len() > 0 && s[0] != c {
        lemma_find_char(s.drop_first(), c);
        assert forall|j: int| 0 <= j < find_char(s, c) implies s[j] != c by {
            if j > 0 {
                assert(s.drop_first()[j - 1] == s[j]);
            }
        }
        if find_char(s, c) < s.len() {
            assert(s.drop_first()[find_char(s, c) - 1] == s[find_char(s, c)]);
        }
    }
}

/// `find_char` is pinned down by its characterization: if everything before
/// `i` differs from `c`, and `i` is an occurrence of `c` or the end, then
/// `find_char` is `i`.
pub proof fn lemma_find_char_is(s: Seq<char>, c: char, i: int)
    requires
        0 <= i <= s.len(),
        forall|j: int| 0 <= j < i ==> s[j] != c,
        i < s.len() ==> s[i] == c,
    ensures
        find_char(s, c) == i,
{
    lemma_find_char(s, c);
    if find_char(s, c) < i {
        assert(s[find_char(s, c)] != c);
    }
    if find_char(s, c) > i {
        assert(s[i] != c);
    }
}

/// The segments of `s` between occurrences of `c`: one more segment than
/// there are occurrences, so a lone empty segment for empty `s` and an empty
/// final segment after a trailing `c`.
pub open spec fn split_char(s: Seq<char>, c: char) -> Seq<Seq<char>>
    decreases s.len(),
{
    let i = find_char(s, c);
    if 0 <= i && i < s.len() {
        seq![s.take(i)] + split_char(s.skip(i + 1), c)
    } else {
        seq![s]
    }
}

/// Splits a string at every occurrence of a character, as `split_char` says.
pub fn split_char_exec(s: &str, c: char) -> (r: Vec<String>)
    ensures
        r.deep_view() == split_char(s@, c),
{
    let n = s.unicode_len();
    let mut r: Vec<String> = Vec::new();
    let mut pos: usize = 0;
    let mut done = false;
    proof {
        assert(s@.skip(0) =~= s@);
    }
    while !done
        invariant
            n == s@.len(),
            pos <= n,
            !done ==> split_char(s@, c) == r.deep_view() + split_char(s@.skip(pos as int), c),
            done ==> split_char(s@, c) == r.deep_view(),
        decreases n - pos + (if done {
            0int
        } else {
            1int
        }),
    {
        let ghost rest = s@.skip(pos as int);
        let mut j: usize = pos;
        while j < n && s.get_char(j) != c
            invariant
                pos <= j <= n,
                n == s@.len(),
                forall|k: int| pos <= k < j ==> s@[k] != c,
            decreases n - j,
        {
            j += 1;
        }
        let seg = s.substring_char(pos, j).to_owned();
        proof {
            assert forall|k: int| 0 <= k < j - pos implies rest[k] != c by {
                assert(rest[k] == s@[pos + k]);
            }
            if j < n {
                assert(rest[j - pos] == s@[j as int]);
            }
            lemma_find_char_is(rest, c, j - pos);
            assert(rest.take(j - pos) =~= seg@);
            if j < n {
                assert(rest.skip(j - pos + 1) =~= s@.skip(j + 1));
            } else {
                assert(rest =~= seg@);
            }
        }
        r.push(seg);
        proof {
            assert(r.deep_view() =~= r.deep_view().drop_last().push(seg@));
        }
        if j < n {
            proof {
                assert(split_char(s@, c) == r.deep_view() + split_char(s@.skip(j + 1), c));
            }
            pos = j + 1;
        } else {
            proof {
                assert(split_char(rest, c) =~= seq![seg@]);
                assert(split_char(s@, c) =~= r.deep_view());
            }
            done = true;
        }
    }
    r
}

/// Whether one of the strings equals `s`.
pub fn contains_str(v: &Vec<String>, s: &str) -> (r: bool)
    ensures
        r == v.deep_view().contains(s@),
{
    let mut i: usize = 0;
    while i < v.len()
        invariant
            i <= v.len(),
            forall|j: int| 0 <= j < i ==> v.deep_view()[j] != s@,
        decreases v.len() - i,
    {
        if str_eq(v[i].as_str(), s) {
            proof {
                assert(v.deep_view()[i as int] == s@);
            }
            return true;
        }
        i += 1;
    }
    proof {
        if v.deep_view().contains(s@) {
            let w = choose|w: int| 0 <= w < v.deep_view().len() && v.deep_view()[w] == s@;
        }
    }
    false
}

/// Whether `s` begins with `p`.
pub open spec fn starts_with(s: Seq<char>, p: Seq<char>) -> bool {
    p.len() <= s.len() && s.take(p.len() as int) == p
}

/// Whether `sep` occurs in `s` at position `j`.
pub open spec fn occurrence_at(s: Seq<char>, sep: Seq<char>, j: int) -> bool {
    0 <= j && j + sep.len() <= s.len() && s.subrange(j, j + sep.len() as int) == sep
}

/// Index of the first occurrence of `sep` in `s`, or `s.len()` when `sep`
/// does not occur.
pub open spec fn find_sub(s: Seq<char>, sep: Seq<char>) -> int
    recommends
        sep.len() > 0,
    decreases s.len(),
{
    if sep.len() == 0 || s.len() < sep.len() {
        s.len() as int
    } else if starts_with(s, sep) {
        0
    } else {
        1 + find_sub(s.drop_first(), sep)
    }
}

/// `find_sub` is pinned down by its characterization: no occurrence before
/// `i`, and an occurrence at `i` or no occurrence at all.
pub proof fn lemma_find_sub_is(s: Seq<char>, sep: Seq<char>, i: int)
    requires
        sep.len() > 0,
        0 <= i <= s.len(),
        forall|j: int| 0 <= j < i ==> !occurrence_at(s, sep, j),
        i < s.len() ==> occurrence_at(s, sep, i),
        i == s.len() ==> forall|j: int| 0 <= j < s.len() ==> !occurrence_at(s, sep, j),
    ensures
        find_sub(s, sep) == i,
    decreases s.len(),
{
    if s.len() < sep.len() {
        assert forall|j: int| 0 <= j < s.len() implies !occurrence_at(s, sep, j) by {}
        assert(i == s.len()) by {
            if i < s.len() {
                assert(!occurrence_at(s, sep, i));
            }
        }
    } else if i == 0 {
        assert(occurrence_at(s, sep, 0));
        assert(s.take(sep.len() as int) =~= s.subrange(0, sep.len() as int));
        assert(starts_with(s, sep));
    } else {
        assert(!occurrence_at(s, sep, 0));
        assert(!starts_with(s, sep)) by {
            if starts_with(s, sep) {
                assert(s.subrange(0, sep.len() as int) =~= s.take(sep.len() as int));
            }
        }
        let rest = s.drop_first();
        assert forall|j: int| 0 <= j < i - 1 implies !occurrence_at(rest, sep, j) by {
            if occurrence_at(rest, sep, j) {
                assert(s.subrange(j + 1, j + 1 + sep.len() as int) =~= rest.subrange(
                    j,
                    j + sep.len() as int,
                ));
                assert(occurrence_at(s, sep, j + 1));
            }
        }
        if i - 1 < rest.len() {
            assert(occurrence_at(s, sep, i));
            assert(rest.subrange(i - 1, i - 1 + sep.len() as int) =~= s.subrange(
                i,
                i + sep.len() as int,
            ));
            assert(occurrence_at(rest, sep, i - 1));
        } else {
            assert forall|j: int| 0 <= j < rest.len() implies !occurrence_at(rest, sep, j) by {
                if occurrence_at(rest, sep, j) {
                    assert(s.subrange(j + 1, j + 1 + sep.len() as int) =~= rest.subrange(
                        j,
                        j + sep.len() as int,
                    ));
                    assert(occurrence_at(s, sep, j + 1));
                }
            }
        }
        lemma_find_sub_is(rest, sep, i - 1);
    }
}

/// The segments of `s` between occurrences of `sep`, like `split_char` for a
/// separator of more than one character; occurrences are consumed from the
/// left and do not overlap.
pub open spec fn split_on(s: Seq<char>, sep: Seq<char>) -> Seq<Seq<char>>
    recommends
        sep.len() > 0,
    decreases s.len(),
{
    let i = find_sub(s, sep);
    if sep.len() > 0 && 0 <= i && i + sep.len() <= s.len() {
        seq![s.take(i)] + split_on(s.skip(i + sep.len()), sep)
    } else {
        seq![s]
    }
}

/// `s` with every leading and trailing quote character removed.
pub open spec fn trim_quotes(s: Seq<char>) -> Seq<char>
    decreases s.len(),
{
    if s.len() > 0 && s[0] == '"' {
        trim_quotes(s.drop_first())
    } else if s.len() > 0 && s.last() == '"' {
        trim_quotes(s.drop_last())
    } else {
        s
    }
}

/// What trimming quotes leaves: the subrange between the leading and the
/// trailing run of quotes.
pub proof fn lemma_trim_quotes_subrange(s: Seq<char>, lo: int, hi: int)
    requires
        0 <= lo <= hi <= s.len(),
        forall|j: int| 0 <= j < lo ==> s[j] == '"',
        forall|j: int| hi <= j < s.len() ==> s[j] == '"',
        lo < hi ==> s[lo] != '"' && s[hi - 1] != '"',
    ensures
        trim_quotes(s) == s.subrange(lo, hi),
    decreases s.len(),
{
    if s.len() == 0 {
        assert(trim_quotes(s) =~= s.subrange(lo, hi));
    } else if lo > 0 {
        assert(s[0] == '"');
        let rest = s.drop_first();
        assert forall|j: int| 0 <= j < lo - 1 implies rest[j] == '"' by {
            assert(rest[j] == s[j + 1]);
        }
        assert forall|j: int| hi - 1 <= j < rest.len() implies rest[j] == '"' by {
            assert(rest[j] == s[j + 1]);
        }
        if lo < hi {
            assert(rest[lo - 1] == s[lo as int]);
            assert(rest[hi - 2] == s[hi - 1]);
        }
        lemma_trim_quotes_subrange(rest, lo - 1, hi - 1);
        assert(rest.subrange(lo - 1, hi - 1) =~= s.subrange(lo, hi));
    } else if lo == hi {
        assert(s[0] == '"');
        let rest = s.drop_first();
        assert forall|j: int| 0 <= j < rest.len() implies rest[j] == '"' by {
            assert(rest[j] == s[j + 1]);
        }
        lemma_trim_quotes_subrange(rest, 0, 0);
        assert(rest.subrange(0, 0) =~= s.subrange(lo, hi));
    } else {
        assert(s[0] != '"');
        if hi < s.len() {
            assert(s.last() == '"');
            let rest = s.drop_last();
            assert(forall|j: int| 0 <= j < lo ==> rest[j] == s[j]);
            assert forall|j: int| hi <= j < rest.len() implies rest[j] == '"' by {
                assert(rest[j] == s[j]);
            }
            assert(rest[lo as int] == s[lo as int]);
            assert(rest[hi - 1] == s[hi - 1]);
            lemma_trim_quotes_subrange(rest, lo, hi);
            assert(rest.subrange(lo, hi) =~= s.subrange(lo, hi));
        } else {
            assert(trim_quotes(s) == s);
            assert(s.subrange(lo, hi) =~= s);
        }
    }
}

/// Removes every leading and trailing quote character.
pub fn trim_quotes_exec(s: &str) -> (r: String)
    ensures
        r@ == trim_quotes(s@),
{
    let n = s.unicode_len();
    let mut lo: usize = 0;
    while lo < n && s.get_char(lo) == '"'
        invariant
            lo <= n,
            n == s@.len(),
            forall|j: int| 0 <= j < lo ==> s@[j] == '"',
        decreases n - lo,
    {
        lo += 1;
    }
    let mut hi: usize = n;
    while hi > lo && s.get_char(hi - 1) == '"'
        invariant
            lo <= hi <= n,
            n == s@.len(),
            forall|j: int| hi <= j < n ==> s@[j] == '"',
        decreases hi,
    {
        hi -= 1;
    }
    proof {
        lemma_trim_quotes_subrange(s@, lo as int, hi as int);
    }
    s.substring_char(lo, hi).to_owned()
}

/// Characters that are illegal or risky in file names on common filesystems.
pub open spec fn is_reserved_char(c: char) -> bool {
    c == ':' || c == '/' || c == '\\' || c == '"' || c == '*' || c == '<' || c == '>' || c == '?'
        || c == '|'
}

/// The visually similar safe substitute for each reserved character; any
/// other character stands for itself.
pub open spec fn sanitized_char(c: char) -> char {
    if c == ':' {
        '\u{a789}'
    } else if c == '/' {
        '\u{ff0f}'
    } else if c == '\\' {
        '\u{29f9}'
    } else if c == '"' {
        '\u{ff02}'
    } else if c == '*' {
        '\u{22c6}'
    } else if c == '<' {
        '\u{ff1c}'
    } else if c == '>' {
        '\u{ff1e}'
    } else if c == '?' {
        '\u{ff1f}'
    } else if c == '|' {
        '\u{2223}'
    } else {
        c
    }
}

/// A final dot or space upsets some filesystems.
pub open spec fn is_unsafe_ending(c: char) -> bool {
    c == '.' || c == ' '
}

/// What sanitization produces: every character replaced by its safe
/// substitute, and a filler appended when the result would end unsafely.
pub open spec fn fs_safe_seq(s: Seq<char>) -> Seq<char>
    recommends
        s.len() > 0,
{
    let mapped = s.map_values(|c: char| sanitized_char(c));
    if is_unsafe_ending(mapped.last()) {
        mapped.push('_')
    } else {
        mapped
    }
}

fn sanitize_char(c: char) -> (r: char)
    ensures
        r == sanitized_char(c),
{
    if c == ':' {
        '\u{a789}'
    } else if c == '/' {
        '\u{ff0f}'
    } else if c == '\\' {
        '\u{29f9}'
    } else if c == '"' {
        '\u{ff02}'
    } else if c == '*' {
        '\u{22c6}'
    } else if c == '<' {
        '\u{ff1c}'
    } else if c == '>' {
        '\u{ff1e}'
    } else if c == '?' {
        '\u{ff1f}'
    } else if c == '|' {
        '\u{2223}'
    } else {
        c
    }
}

/// Replaces filesystem-reserved characters with visually similar safe
/// substitutes, and appends a filler character when the result would end in
/// a dot or a space. The result never holds a reserved character and never
/// ends unsafely.
pub fn make_string_fs_safe(s: &str) -> (r: String)
    requires
        s@.len() > 0,
    ensures
        r@ == fs_safe_seq(s@),
        forall|i: int| 0 <= i < r@.len() ==> !is_reserved_char(#[trigger] r@[i]),
        r@.len() > 0 && !is_unsafe_ending(r@.last()),
{
    let n = s.unicode_len();
    let mut out = String::new();
    let mut i: usize = 0;
    while i < n
        invariant
            i <= n,
            n == s@.len(),
            out@ =~= s@.take(i as int).map_values(|c: char| sanitized_char(c)),
        decreases n - i,
    {
        let c = s.get_char(i);
        push_char(&mut out, sanitize_char(c));
        i += 1;
        proof {
            assert(out@ =~= s@.take(i as int).map_values(|c: char| sanitized_char(c)));
        }
    }
    proof {
        assert(s@.take(n as int) =~= s@);
    }
    let last = s.get_char(n - 1);
    let mapped_last = sanitize_char(last);
    if mapped_last == '.' || mapped_last == ' ' {
        push_char(&mut out, '_');
    }
    out
}

/// The suffix of `s` from its `amt`-th character on; empty when `s` has no
/// more than `amt` characters.
pub fn slice_string<'a>(s: &'a str, amt: usize) -> (r: &'a str)
    ensures
        r@ == (if (amt as int) < s@.len() {
            s@.skip(amt as int)
        } else {
            Seq::<char>::empty()
        }),
{
    let n = s.unicode_len();
    if amt < n {
        s.substring_char(amt, n)
    } else {
        let r = "";
        proof {
            reveal_strlit("");
            assert(r@ =~= Seq::<char>::empty());
        }
        r
    }
}

/// The decimal digit character for a value below ten.
pub open spec fn dec_digit(n: int) -> char
    recommends
        0 <= n < 10,
{
    if n == 0 {
        '0'
    } else if n == 1 {
        '1'
    } else if n == 2 {
        '2'
    } else if n == 3 {
        '3'
    } else if n == 4 {
        '4'
    } else if n == 5 {
        '5'
    } else if n == 6 {
        '6'
    } else if n == 7 {
        '7'
    } else if n == 8 {
        '8'
    } else {
        '9'
    }
}

/// The decimal digit string of a natural number, most significant digit
/// first, with no leading zeros (a lone zero for zero).
pub open spec fn dec_str(n: nat) -> Seq<char>
    decreases n,
{
    if n < 10 {
        seq![dec_digit(n as int)]
    } else {
        dec_str(n / 10).push(dec_digit((n % 10) as int))
    }
}

pub(crate) fn dec_digit_exec(n: u64) -> (r: char)
    requires
        n < 10,
    ensures
        r == dec_digit(n as int),
{
    if n == 0 {
        '0'
    } else if n == 1 {
        '1'
    } else if n == 2 {
        '2'
    } else if n == 3 {
        '3'
    } else if n == 4 {
        '4'
    } else if n == 5 {
        '5'
    } else if n == 6 {
        '6'
    } else if n == 7 {
        '7'
    } else if n == 8 {
        '8'
    } else {
        '9'
    }
}

/// The decimal rendering of an unsigned number.
pub fn u64_to_string(n: u64) -> (r: String)
    ensures
        r@ == dec_str(n as nat),
    decreases n,
{
    if n < 10 {
        let mut s = String::new();
        push_char(&mut s, dec_digit_exec(n));
        proof {
            assert(s@ =~= dec_str(n as nat));
        }
        s
    } else {
        let mut s = u64_to_string(n / 10);
        push_char(&mut s, dec_digit_exec(n % 10));
        s
    }
}

/// The decimal digit string of an integer: a minus sign before the digits of
/// its magnitude when negative.
pub open spec fn int_str(n: int) -> Seq<char> {
    if n < 0 {
        seq!['-'] + dec_str((-n) as nat)
    } else {
        dec_str(n as nat)
    }
}

/// The decimal rendering of a signed number.
pub fn i32_to_string(n: i32) -> (r: String)
    ensures
        r@ == int_str(n as int),
{
    if n >= 0 {
        u64_to_string(n as u64)
    } else {
        let mag = -(n as i64);
        let mut s = String::new();
        push_char(&mut s, '-');
        let digits = u64_to_string(mag as u64);
        let out = s.concat(digits.as_str());
        proof {
            assert(out@ =~= int_str(n as int));
        }
        out
    }
}

/// A FIFO of pending work items, drained by the worker pool. Each call of
/// `get_work` transfers the front item out of the queue, so no two calls can
/// claim the same item.
pub struct WorkQueue<T> {
    items: Vec<T>,
}

impl<T> View for WorkQueue<T> {
    type V = Seq<T>;

    closed spec fn view(&self) -> Seq<T> {
        self.items@
    }
}

impl<T> WorkQueue<T> {
    /// A queue holding exactly the given items, front first.
    pub fn from_vec(vec: Vec<T>) -> (q: Self)
        ensures
            q@ == vec@,
    {
        WorkQueue { items: vec }
    }

    /// Pops the front item, or signals empty. The returned item leaves the
    /// queue, so each item is handed out at most once.
    pub fn get_work(&mut self) -> (r: Option<T>)
        ensures
            match r {
                Some(t) => old(self)@.len() > 0 && t == old(self)@[0] && final(self)@ == old(
                    self,
                )@.drop_first(),
                None => old(self)@.len() == 0 && final(self)@ == old(self)@,
            },
    {
        if self.items.len() == 0 {
            None
        } else {
            Some(self.items.remove(0))
        }
    }

    /// How many items remain unclaimed.
    pub fn len(&self) -> (n: usize)
        ensures
            n == self@.len(),
    {
        self.items.len()
    }
}

/// Everything a group of workers' claim lists hold, counted together.
pub open spec fn claims_multiset<T>(claims: Seq<Seq<T>>) -> Multiset<T>
    decreases claims.len(),
{
    if claims.len() == 0 {
        Multiset::empty()
    } else {
        claims_multiset(claims.drop_last()).add(claims.last().to_multiset())
    }
}

proof fn lemma_claims_multiset_update<T>(claims: Seq<Seq<T>>, w: int, x: T)
    requires
        0 <= w < claims.len(),
    ensures
        claims_multiset(claims.update(w, claims[w].push(x))) == claims_multiset(claims).insert(x),
    decreases claims.len(),
{
    broadcast use vstd::seq_lib::group_to_multiset_ensures;
    broadcast use vstd::multiset::group_multiset_axioms;

    let updated = claims.update(w, claims[w].push(x));
    if w == claims.len() - 1 {
        assert(updated.drop_last() =~= claims.drop_last());
        assert(updated.last() == claims.last().push(x));
        assert(claims.last().push(x).to_multiset() =~= claims.last().to_multiset().insert(x));
        assert(claims_multiset(updated) =~= claims_multiset(claims).insert(x));
    } else {
        let prefix = claims.drop_last();
        assert(prefix[w] == claims[w]);
        lemma_claims_multiset_update(prefix, w, x);
        assert(updated.drop_last() =~= prefix.update(w, prefix[w].push(x)));
        assert(updated.last() == claims.last());
        assert(claims_multiset(updated) =~= claims_multiset(claims).insert(x));
    }
}

/// The contents of a group of claim lists.
pub open spec fn lists_views<T>(lists: Seq<Vec<T>>) -> Seq<Seq<T>> {
    lists.map_values(|v: Vec<T>| v@)
}

/// Drains the queue under an arbitrary schedule: at each step the worker the
/// schedule names claims the queue's front item, until the queue is empty.
/// However the schedule interleaves the workers, together they claim every
/// item exactly once, no duplicates and no omissions: the claim lists'
/// contents and what is left in the queue add up to exactly the queue's
/// initial content, and the queue ends empty whenever the schedule is long
/// enough.
pub fn drain_with_schedule<T>(q: &mut WorkQueue<T>, schedule: &Vec<usize>, nworkers: usize) -> (r:
    Vec<Vec<T>>)
    requires
        forall|i: int| 0 <= i < schedule@.len() ==> schedule@[i] < nworkers,
    ensures
        r@.len() == nworkers,
        claims_multiset(lists_views(r@)).add(final(q)@.to_multiset()) == old(q)@.to_multiset(),
        old(q)@.len() <= schedule@.len() ==> final(q)@.len() == 0,
{
    broadcast use vstd::seq_lib::group_to_multiset_ensures;
    broadcast use vstd::multiset::group_multiset_axioms;

    let mut lists: Vec<Vec<T>> = Vec::new();
    let mut w: usize = 0;
    while w < nworkers
        invariant
            w <= nworkers,
            lists@.len() == w,
            forall|i: int| 0 <= i < w ==> lists@[i]@.len() == 0,
        decreases nworkers - w,
    {
        lists.push(Vec::new());
        w += 1;
    }
    proof {
        lemma_claims_multiset_empty(lists_views(lists@));
        assert(claims_multiset(lists_views(lists@)).add(q@.to_multiset()) =~= q@.to_multiset());
    }
    let mut step: usize = 0;
    while step < schedule.len()
        invariant
            step <= schedule@.len(),
            forall|i: int| 0 <= i < schedule@.len() ==> schedule@[i] < nworkers,
            lists@.len() == nworkers,
            claims_multiset(lists_views(lists@)).add(q@.to_multiset()) == old(q)@.to_multiset(),
            q@.len() > 0 ==> q@.len() + step == old(q)@.len(),
            q@.len() == 0 ==> step >= old(q)@.len(),
        decreases schedule@.len() - step,
    {
        let worker = schedule[step];
        let ghost qpre = q@;
        let ghost before = lists_views(lists@);
        match q.get_work() {
            Some(item) => {
                let mut list = lists.remove(worker);
                list.push(item);
                lists.insert(worker, list);
                proof {
                    assert(lists_views(lists@) =~= before.update(
                        worker as int,
                        before[worker as int].push(item),
                    ));
                    lemma_claims_multiset_update(before, worker as int, item);
                    assert(q@ =~= qpre.remove(0));
                    vstd::seq_lib::to_multiset_remove::<T>(qpre, 0);
                    vstd::seq_lib::to_multiset_contains::<T>(qpre, item);
                    assert(qpre.contains(item)) by {
                        assert(qpre[0] == item);
                    }
                    assert(q@.to_multiset() == qpre.to_multiset().remove(item));
                    assert(claims_multiset(before).insert(item).add(
                        qpre.to_multiset().remove(item),
                    ) =~= claims_multiset(before).add(qpre.to_multiset()));
                }
            },
            None => {},
        }
        step += 1;
    }
    lists
}

proof fn lemma_claims_multiset_empty<T>(claims: Seq<Seq<T>>)
    requires
        forall|i: int| 0 <= i < claims.len() ==> claims[i].len() == 0,
    ensures
        claims_multiset(claims) == Multiset::<T>::empty(),
    decreases claims.len(),
{
    broadcast use vstd::seq_lib::group_to_multiset_ensures;
    broadcast use vstd::multiset::group_multiset_axioms;

    if claims.len() > 0 {
        lemma_claims_multiset_empty(claims.drop_last());
        assert(claims.last() =~= Seq::<T>::empty());
        assert(claims.last().to_multiset() =~= Multiset::<T>::empty());
        assert(claims_multiset(claims) =~= Multiset::<T>::empty());
    }
}

} // verus!
