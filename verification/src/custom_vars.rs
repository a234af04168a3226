//! Custom variables: `key=value` lines reported by a node.
use vstd::prelude::*;
use vstd::utf8::{decode_utf8, valid_utf8};
use crate::text::{
    chars_of, decode_utf8_lossy, lemma_run_len, lemma_valid_prefix_of_valid, run_len,
    string_from_chars, utf8_lossy,
};

verus! {

/// A map from variable names to values, each name present once.
pub struct CustomVars {
    entries: Vec<(String, String)>,
}

impl CustomVars {
    /// The names, in the order they were first inserted.
    pub closed spec fn keys(&self) -> Seq<Seq<char>> {
        keys_of(self.entries@)
    }

    #[verifier::type_invariant]
    closed spec fn names_distinct(&self) -> bool {
        self.keys().no_duplicates()
    }

    /// An empty set of variables.
    pub fn new() -> (v: CustomVars)
        ensures
            v@ == Map::<Seq<char>, Seq<char>>::empty(),
    {
        let v = CustomVars { entries: Vec::new() };
        assert(v@ =~= Map::<Seq<char>, Seq<char>>::empty());
        v
    }

    /// The value of variable `key`, if it is set.
    pub fn get(&self, key: &str) -> (r: Option<&String>)
        ensures
            match r {
                Some(v) => self@.contains_key(key@) && v@ == self@[key@],
                None => !self@.contains_key(key@),
            },
    {
        proof {
            use_type_invariant(self);
        }
        let k = key.to_owned();
        let mut i: usize = 0;
        while i < self.entries.len()
            invariant
                i <= self.entries@.len(),
                self.keys().no_duplicates(),
                k@ == key@,
                forall|j: int| 0 <= j < i ==> self.keys()[j] != key@,
            decreases self.entries@.len() - i,
        {
            if self.entries[i].0 == k {
                proof {
                    assert(self.keys()[i as int] == key@);
                    let j = self.keys().index_of(key@);
                    assert(self.keys().contains(key@));
                    assert(self.keys()[j] == key@);
                    if j != i {
                        assert(self.keys()[j] != self.keys()[i as int]);
                    }
                    assert(self@[key@] == self.entries@[i as int].1@);
                }
                return Some(&self.entries[i].1);
            }
            i += 1;
        }
        proof {
            assert(!self.keys().contains(key@));
        }
        None
    }

    /// How many variables are set.
    pub fn len(&self) -> (n: usize)
        ensures
            n == self@.len(),
    {
        proof {
            use_type_invariant(self);
            self.keys().unique_seq_to_set();
            assert(self@.dom() =~= self.keys().to_set());
        }
        self.entries.len()
    }

    /// Whether no variable is set.
    pub fn is_empty(&self) -> (b: bool)
        ensures
            b == (self@.len() == 0),
    {
        self.len() == 0
    }

    /// Sets variable `key` to `value`, replacing any earlier value.
    pub fn insert(&mut self, key: String, value: String)
        ensures
            final(self)@ == old(self)@.insert(key@, value@),
    {
        proof {
            use_type_invariant(&*self);
        }
        let mut entries: Vec<(String, String)> = Vec::new();
        std::mem::swap(&mut entries, &mut self.entries);
        insert_entry(&mut entries, key, value);
        self.entries = entries;
    }
}

/// The names of `entries`, in order.
pub open spec fn keys_of(entries: Seq<(String, String)>) -> Seq<Seq<char>> {
    entries.map_values(|e: (String, String)| e.0@)
}

/// The map that `entries` (with distinct names) stands for.
pub open spec fn map_of(entries: Seq<(String, String)>) -> Map<Seq<char>, Seq<char>> {
    Map::new(
        |k: Seq<char>| keys_of(entries).contains(k),
        |k: Seq<char>| entries[keys_of(entries).index_of(k)].1@,
    )
}

fn insert_entry(entries: &mut Vec<(String, String)>, key: String, value: String)
    requires
        keys_of(old(entries)@).no_duplicates(),
    ensures
        keys_of(final(entries)@).no_duplicates(),
        map_of(final(entries)@) == map_of(old(entries)@).insert(key@, value@),
{
    let ghost old_entries = entries@;
    let ghost old_keys = keys_of(entries@);
    let ghost old_view = map_of(entries@);
    let mut i: usize = 0;
    while i < entries.len()
        invariant
            i <= entries@.len(),
            entries@ == old_entries,
            old_entries == old(entries)@,
            old_keys == keys_of(old_entries),
            old_keys.no_duplicates(),
            old_view == map_of(old_entries),
            forall|j: int| 0 <= j < i ==> old_keys[j] != key@,
        decreases entries@.len() - i,
    {
        if entries[i].0 == key {
            assert(old_keys[i as int] == key@);
            entries.set(i, (key, value));
            proof {
                let keys = keys_of(entries@);
                assert(keys =~= old_keys);
                assert forall|k: Seq<char>| #[trigger] map_of(entries@).contains_key(k)
                    == old_view.insert(key@, value@).contains_key(k) by {
                    if k == key@ {
                        assert(keys[i as int] == k);
                    }
                }
                assert forall|k: Seq<char>| map_of(entries@).contains_key(k) implies #[trigger] map_of(
                    entries@,
                )[k] == old_view.insert(key@, value@)[k] by {
                    let j = old_keys.index_of(k);
                    assert(old_keys.contains(k));
                    assert(old_keys[j] == k);
                    if k == key@ {
                        assert(old_keys[i as int] == k);
                    } else {
                        assert(j != i);
                        assert(entries@[j] == old_entries[j]);
                    }
                }
                assert(map_of(entries@) =~= old_view.insert(key@, value@));
            }
            return;
        }
        i += 1;
    }
    proof {
        assert(!old_keys.contains(key@));
    }
    entries.push((key, value));
    proof {
        let keys = keys_of(entries@);
        assert(keys =~= old_keys.push(key@));
        assert forall|a: int, b: int|
            0 <= a < keys.len() && 0 <= b < keys.len() && a != b implies keys[a] != keys[b] by {
            if a < old_keys.len() && b < old_keys.len() {
            } else if a == old_keys.len() {
                assert(keys[b] == old_keys[b]);
            } else {
                assert(keys[a] == old_keys[a]);
            }
        }
        assert forall|k: Seq<char>| #[trigger] map_of(entries@).contains_key(k) == old_view.insert(
            key@,
            value@,
        ).contains_key(k) by {
            if old_keys.contains(k) {
                let j = choose|j: int| 0 <= j < old_keys.len() && old_keys[j] == k;
                assert(keys[j] == k);
            }
            if k == key@ {
                assert(keys[old_keys.len() as int] == k);
            }
        }
        assert forall|k: Seq<char>| map_of(entries@).contains_key(k) implies #[trigger] map_of(
            entries@,
        )[k] == old_view.insert(key@, value@)[k] by {
            let j = keys.index_of(k);
            assert(keys.contains(k));
            assert(keys[j] == k);
            if k == key@ {
                assert(j == old_keys.len());
            } else {
                assert(j < old_keys.len());
                assert(old_keys[j] == k);
                let j0 = old_keys.index_of(k);
                assert(old_keys.contains(k));
                assert(old_keys[j0] == k);
                assert(keys[j0] == k);
                assert(entries@[j] == old_entries[j]);
            }
        }
        assert(map_of(entries@) =~= old_view.insert(key@, value@));
    }
}

impl View for CustomVars {
    type V = Map<Seq<char>, Seq<char>>;

    closed spec fn view(&self) -> Map<Seq<char>, Seq<char>> {
        map_of(self.entries@)
    }
}

/// Characters before the first line feed.
pub open spec fn keep_not_newline() -> spec_fn(char) -> bool {
    |c: char| c != '\n'
}

/// Characters before the first `=`.
pub open spec fn keep_not_equals() -> spec_fn(char) -> bool {
    |c: char| c != '='
}

/// `line` without one trailing carriage return.
pub open spec fn strip_cr(line: Seq<char>) -> Seq<char> {
    if line.len() > 0 && line.last() == '\r' {
        line.drop_last()
    } else {
        line
    }
}

/// The lines of `t` as `str::lines` yields them: `t` is split after each
/// line feed, a line that ended in "\r\n" loses both characters, and the
/// final line ending is optional (a last line without one is kept whole).
pub open spec fn lines_of(t: Seq<char>) -> Seq<Seq<char>>
    decreases t.len(),
{
    if t.len() == 0 {
        seq![]
    } else {
        let p = run_len(t, keep_not_newline());
        if p >= t.len() {
            seq![t]
        } else {
            seq![strip_cr(t.take(p as int))] + lines_of(t.skip(p + 1int))
        }
    }
}

/// The variables that `lines` set, in order: a line sets the name before
/// its first `=` to the text after it, a later line overrides an earlier
/// one, and a line without `=` sets nothing.
pub open spec fn vars_of_lines(lines: Seq<Seq<char>>) -> Map<Seq<char>, Seq<char>>
    decreases lines.len(),
{
    if lines.len() == 0 {
        Map::empty()
    } else {
        let m = vars_of_lines(lines.drop_last());
        let l = lines.last();
        let q = run_len(l, keep_not_equals());
        if q < l.len() {
            m.insert(l.take(q as int), l.skip(q + 1int))
        } else {
            m
        }
    }
}

/// The variables that the text `t` sets, one `key=value` per line.
pub open spec fn custom_vars_spec(t: Seq<char>) -> Map<Seq<char>, Seq<char>> {
    vars_of_lines(lines_of(t))
}

/// Parse custom variables from the text of a `PacketType::CustomVars`
/// payload: `key=value` pairs separated by newlines.
pub fn parse_custom_vars_text(text: &str) -> (vars: CustomVars)
    ensures
        vars@ == custom_vars_spec(text@),
{
    let cs = chars_of(text);
    let mut vars = CustomVars::new();
    let ghost mut done: Seq<Seq<char>> = seq![];
    let mut pos: usize = 0;
    assert(cs@.skip(0) =~= cs@);
    assert(done + lines_of(cs@) =~= lines_of(cs@));
    while pos < cs.len()
        invariant
            pos <= cs@.len(),
            cs@ == text@,
            lines_of(cs@) == done + lines_of(cs@.skip(pos as int)),
            vars@ == vars_of_lines(done),
        decreases cs@.len() - pos,
    {
        let ghost r = cs@.skip(pos as int);
        let mut e: usize = pos;
        while e < cs.len() && cs[e] != '\n'
            invariant
                pos <= e <= cs@.len(),
                forall|j: int| pos <= j < e ==> cs@[j] != '\n',
            decreases cs@.len() - e,
        {
            e += 1;
        }
        proof {
            assert forall|j: int| 0 <= j < e - pos implies keep_not_newline()(#[trigger] r[j]) by {
                assert(r[j] == cs@[pos + j]);
            }
            if e < cs.len() {
                assert(r[e - pos] == cs@[e as int]);
            }
            lemma_run_len(r, keep_not_newline(), e - pos);
        }
        let line_end: usize = if e < cs.len() && e > pos && cs[e - 1] == '\r' {
            e - 1
        } else {
            e
        };
        let ghost line = cs@.subrange(pos as int, line_end as int);
        proof {
            if e < cs.len() {
                assert(line =~= strip_cr(r.take(e - pos)));
            } else {
                assert(line =~= r);
            }
        }
        let mut q: usize = pos;
        while q < line_end && cs[q] != '='
            invariant
                pos <= q <= line_end <= cs@.len(),
                forall|j: int| pos <= j < q ==> cs@[j] != '=',
            decreases line_end - q,
        {
            q += 1;
        }
        proof {
            assert forall|j: int| 0 <= j < q - pos implies keep_not_equals()(#[trigger] line[j]) by {
                assert(line[j] == cs@[pos + j]);
            }
            if q < line_end {
                assert(line[q - pos] == cs@[q as int]);
            }
            lemma_run_len(line, keep_not_equals(), q - pos);
        }
        let ghost before = vars@;
        if q < line_end {
            let key = string_from_chars(&cs.as_slice()[pos..q]);
            let value = string_from_chars(&cs.as_slice()[q + 1..line_end]);
            proof {
                assert(key@ =~= line.take(q - pos));
                assert(value@ =~= line.skip(q - pos + 1));
            }
            vars.insert(key, value);
        }
        proof {
            let done2 = done.push(line);
            assert(done2.drop_last() =~= done);
            assert(vars@ == vars_of_lines(done2));
            if e < cs.len() {
                assert(r.skip(e - pos + 1) =~= cs@.skip(e + 1));
                assert(lines_of(cs@) =~= done2 + lines_of(cs@.skip(e + 1)));
            } else {
                assert(cs@.skip(cs@.len() as int) =~= Seq::<char>::empty());
                assert(lines_of(cs@) =~= done2 + lines_of(cs@.skip(cs@.len() as int)));
            }
            done = done2;
        }
        pos = if e < cs.len() {
            e + 1
        } else {
            cs.len()
        };
    }
    assert(cs@.skip(pos as int) =~= Seq::<char>::empty());
    assert(done + Seq::<Seq<char>>::empty() =~= done);
    vars
}

/// Parse custom variables from a `PacketType::CustomVars` payload.
///
/// The payload is UTF-8 text with `key=value` pairs separated by
/// newlines; invalid UTF-8 is decoded lossily first.
pub fn parse_custom_vars(payload: &[u8]) -> (vars: CustomVars)
    ensures
        vars@ == custom_vars_spec(utf8_lossy(payload@)),
        valid_utf8(payload@) ==> vars@ == custom_vars_spec(decode_utf8(payload@)),
{
    let text = decode_utf8_lossy(payload);
    proof {
        if valid_utf8(payload@) {
            lemma_valid_prefix_of_valid(payload@);
        }
    }
    parse_custom_vars_text(text.as_str())
}

} // verus!
