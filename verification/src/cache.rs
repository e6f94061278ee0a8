//! The completion ledger: an append-only record of processed item
//! identifiers, one `id| description` line per item. The ledger state here is
//! the file's text; reading and appending the file itself happens outside the
//! library, which hands the text in and the appended lines out.

use vstd::prelude::*;
use crate::util::{find_char, lemma_find_char, lemma_find_char_is, push_char, str_eq};

verus! {

/// The lines of `s`: segments between newline characters, the terminator of
/// each line removed, and nothing after a final terminator.
pub open spec fn split_lines(s: Seq<char>) -> Seq<Seq<char>>
    decreases s.len(),
{
    if s.len() == 0 {
        Seq::empty()
    } else {
        let i = find_char(s, '\n');
        if 0 <= i && i < s.len() {
            seq![s.take(i)] + split_lines(s.skip(i + 1))
        } else {
            seq![s]
        }
    }
}

/// The identifier a ledger line records: everything before its first
/// delimiter, or the whole line when it has none.
pub open spec fn line_id(line: Seq<char>) -> Seq<char> {
    line.take(find_char(line, '|'))
}

/// Every identifier the ledger text records, in order of appearance.
pub open spec fn ledger_ids(s: Seq<char>) -> Seq<Seq<char>> {
    split_lines(s).map_values(|line: Seq<char>| line_id(line))
}

/// One freshly appended ledger record.
pub open spec fn ledger_line(id: Seq<char>, description: Seq<char>) -> Seq<char> {
    id + seq!['|', ' '] + description + seq!['\n']
}

/// An identifier and description that the line format can carry back out:
/// the identifier holds neither delimiter nor terminator, the description no
/// terminator.
pub open spec fn well_formed_entry(id: Seq<char>, description: Seq<char>) -> bool {
    &&& forall|j: int| 0 <= j < id.len() ==> id[j] != '\n' && id[j] != '|'
    &&& forall|j: int| 0 <= j < description.len() ==> description[j] != '\n'
}

/// Ledger text to which records can be appended without running into the
/// previous one: empty, or ending in a line terminator. Text this library
/// writes always stays in this shape.
pub open spec fn appendable(s: Seq<char>) -> bool {
    s.len() == 0 || s.last() == '\n'
}

proof fn lemma_find_char_prefix(s: Seq<char>, t: Seq<char>, c: char)
    requires
        find_char(s, c) < s.len(),
    ensures
        find_char(s + t, c) == find_char(s, c),
{
    lemma_find_char(s, c);
    let i = find_char(s, c);
    assert forall|j: int| 0 <= j < i implies (s + t)[j] != c by {
        assert((s + t)[j] == s[j]);
    }
    assert((s + t)[i] == s[i]);
    lemma_find_char_is(s + t, c, i);
}

/// Lines distribute over concatenation at a line boundary.
proof fn lemma_split_lines_append(s: Seq<char>, t: Seq<char>)
    requires
        appendable(s),
    ensures
        split_lines(s + t) == split_lines(s) + split_lines(t),
    decreases s.len(),
{
    if s.len() == 0 {
        assert(s + t =~= t);
        assert(split_lines(s) + split_lines(t) =~= split_lines(t));
    } else {
        let i = find_char(s, '\n');
        lemma_find_char(s, '\n');
        assert(i < s.len()) by {
            if i == s.len() {
                assert(s[s.len() - 1] != '\n');
            }
        }
        lemma_find_char_prefix(s, t, '\n');
        assert((s + t).take(i) =~= s.take(i));
        assert((s + t).skip(i + 1) =~= s.skip(i + 1) + t);
        let rest = s.skip(i + 1);
        assert(appendable(rest)) by {
            if rest.len() > 0 {
                assert(rest.last() == s.last());
            }
        }
        lemma_split_lines_append(rest, t);
        assert(split_lines(s + t) =~= split_lines(s) + split_lines(t)) by {
            assert(split_lines(s) =~= seq![s.take(i)] + split_lines(rest));
            assert(split_lines(s + t) =~= seq![s.take(i)] + split_lines(rest) + split_lines(t));
        }
    }
}

/// A well-formed freshly appended record is one line recording exactly its
/// identifier.
proof fn lemma_ledger_line_ids(id: Seq<char>, description: Seq<char>)
    requires
        well_formed_entry(id, description),
    ensures
        split_lines(ledger_line(id, description)) == seq![id + seq!['|', ' '] + description],
        ledger_ids(ledger_line(id, description)) == seq![id],
{
    let line = ledger_line(id, description);
    let body = id + seq!['|', ' '] + description;
    assert(line =~= body + seq!['\n']);
    lemma_find_char_is(line, '\n', body.len() as int);
    assert(line.take(body.len() as int) =~= body);
    assert(line.skip(body.len() as int + 1) =~= Seq::<char>::empty());
    assert(split_lines(Seq::<char>::empty()) =~= Seq::<Seq<char>>::empty());
    assert(split_lines(line) =~= seq![body]);
    lemma_find_char_is(body, '|', id.len() as int);
    assert(body.take(id.len() as int) =~= id);
    assert(ledger_ids(line) =~= seq![id]);
}

/// Appending a well-formed record to appendable ledger text records exactly
/// one more identifier.
pub proof fn lemma_ledger_append(s: Seq<char>, id: Seq<char>, description: Seq<char>)
    requires
        appendable(s),
        well_formed_entry(id, description),
    ensures
        ledger_ids(s + ledger_line(id, description)) == ledger_ids(s).push(id),
{
    let line = ledger_line(id, description);
    let body = id + seq!['|', ' '] + description;
    lemma_split_lines_append(s, line);
    lemma_ledger_line_ids(id, description);
    assert(line_id(body) == ledger_ids(line)[0]);
    let parts = split_lines(s) + seq![body];
    assert(split_lines(s + line) == parts);
    assert forall|i: int| 0 <= i < parts.len() implies #[trigger] ledger_ids(s + line)[i]
        == ledger_ids(s).push(id)[i] by {
        if i < split_lines(s).len() {
            assert(parts[i] == split_lines(s)[i]);
        } else {
            assert(parts[i] == body);
        }
    }
    assert(ledger_ids(s + line) =~= ledger_ids(s).push(id));
}

/// The completion ledger. Its state is the text of the ledger file; a missing
/// file is the empty text. `add` grows the text and hands back the line that
/// must also be appended to the file; it never rewrites what is already
/// there.
pub struct Cache {
    text: String,
}

impl Cache {
    /// The ledger file's text.
    pub closed spec fn view(&self) -> Seq<char> {
        self.text@
    }

    /// A ledger over the given file text; a missing file reads as empty.
    pub fn new(text: Option<String>) -> (c: Self)
        ensures
            c@ == match text {
                Some(t) => t@,
                None => Seq::<char>::empty(),
            },
    {
        match text {
            Some(t) => Cache { text: t },
            None => Cache { text: String::new() },
        }
    }

    /// Every recorded identifier: for each line, the part before its first
    /// delimiter.
    pub fn content(&self) -> (ids: Vec<String>)
        ensures
            ids.deep_view() == ledger_ids(self@),
    {
        let s = self.text.as_str();
        let n = s.unicode_len();
        let mut ids: Vec<String> = Vec::new();
        let mut pos: usize = 0;
        proof {
            assert(s@.skip(0) =~= s@);
        }
        while pos < n
            invariant
                pos <= n,
                n == s@.len(),
                s@ == self@,
                ledger_ids(self@) == ids.deep_view() + ledger_ids(s@.skip(pos as int)),
            decreases n - pos,
        {
            let ghost rest = s@.skip(pos as int);
            let mut j: usize = pos;
            while j < n && s.get_char(j) != '\n'
                invariant
                    pos <= j <= n,
                    n == s@.len(),
                    forall|k: int| pos <= k < j ==> s@[k] != '\n',
                decreases n - j,
            {
                j += 1;
            }
            let mut p: usize = pos;
            while p < j && s.get_char(p) != '|'
                invariant
                    pos <= p <= j <= n,
                    n == s@.len(),
                    forall|k: int| pos <= k < p ==> s@[k] != '|',
                decreases j - p,
            {
                p += 1;
            }
            let id = s.substring_char(pos, p).to_owned();
            proof {
                assert forall|k: int| 0 <= k < j - pos implies rest[k] != '\n' by {
                    assert(rest[k] == s@[pos + k]);
                }
                if j < n {
                    assert(rest[j - pos] == s@[j as int]);
                }
                lemma_find_char_is(rest, '\n', j - pos);
                let line = rest.take(j - pos);
                assert forall|k: int| 0 <= k < p - pos implies line[k] != '|' by {
                    assert(line[k] == s@[pos + k]);
                }
                if p < j {
                    assert(line[p - pos] == s@[p as int]);
                }
                lemma_find_char_is(line, '|', p - pos);
                assert(line_id(line) =~= id@);
                if j < n {
                    assert(split_lines(rest) =~= seq![line] + split_lines(rest.skip(j - pos + 1)));
                    assert(rest.skip(j - pos + 1) =~= s@.skip(j + 1));
                } else {
                    assert(j - pos == rest.len());
                    assert(line =~= rest);
                    assert(split_lines(rest) =~= seq![rest]);
                    assert(s@.skip(n as int) =~= Seq::<char>::empty());
                }
            }
            ids.push(id);
            let newpos = if j < n {
                j + 1
            } else {
                n
            };
            proof {
                assert(ids.deep_view() =~= ids.deep_view().drop_last().push(id@));
                assert(ledger_ids(self@) == ids.deep_view() + ledger_ids(
                    s@.skip(newpos as int),
                ));
            }
            pos = newpos;
        }
        proof {
            assert(s@.skip(n as int) =~= Seq::<char>::empty());
            assert(ids.deep_view() =~= ids.deep_view() + ledger_ids(Seq::<char>::empty()));
        }
        ids
    }

    /// Whether the ledger records the identifier.
    pub fn contains(&self, id: &str) -> (r: bool)
        ensures
            r == ledger_ids(self@).contains(id@),
    {
        let ids = self.content();
        let mut i: usize = 0;
        while i < ids.len()
            invariant
                i <= ids.len(),
                ids.deep_view() == ledger_ids(self@),
                forall|j: int| 0 <= j < i ==> ids.deep_view()[j] != id@,
            decreases ids.len() - i,
        {
            if str_eq(ids[i].as_str(), id) {
                proof {
                    assert(ledger_ids(self@)[i as int] == id@);
                }
                return true;
            }
            i += 1;
        }
        proof {
            if ledger_ids(self@).contains(id@) {
                let w = choose|w: int|
                    0 <= w < ledger_ids(self@).len() && ledger_ids(self@)[w] == id@;
                assert(ids.deep_view()[w] == id@);
            }
        }
        false
    }

    /// Appends one record to the ledger text and returns the same line, for
    /// the caller to append to the ledger file. When the identifier and
    /// description fit the line format and the text was appendable, exactly
    /// the identifier is recorded in addition.
    pub fn add(&mut self, id: &str, description: &str) -> (line: String)
        ensures
            line@ == ledger_line(id@, description@),
            final(self)@ == old(self)@ + line@,
            appendable(old(self)@) && well_formed_entry(id@, description@) ==> ledger_ids(
                final(self)@,
            ) == ledger_ids(old(self)@).push(id@),
    {
        let mut line = id.to_owned();
        push_char(&mut line, '|');
        push_char(&mut line, ' ');
        let mut line = line.concat(description);
        push_char(&mut line, '\n');
        proof {
            assert(line@ =~= ledger_line(id@, description@));
        }
        let appended = self.text.as_str().to_owned().concat(line.as_str());
        self.text = appended;
        proof {
            if appendable(old(self)@) && well_formed_entry(id@, description@) {
                lemma_ledger_append(old(self)@, id@, description@);
            }
        }
        line
    }

    /// The atomic check-then-append step a worker takes after finishing an
    /// item: appends a record only when the identifier is not yet recorded,
    /// and returns the appended line when it did. One critical section per
    /// item keeps two workers from recording the same identifier twice.
    pub fn add_if_absent(&mut self, id: &str, description: &str) -> (line: Option<String>)
        ensures
            ledger_ids(old(self)@).contains(id@) ==> line is None && final(self)@ == old(self)@,
            !ledger_ids(old(self)@).contains(id@) ==> (line matches Some(l) && l@ == ledger_line(
                id@,
                description@,
            ) && final(self)@ == old(self)@ + l@),
    {
        if self.contains(id) {
            None
        } else {
            Some(self.add(id, description))
        }
    }
}

} // verus!
