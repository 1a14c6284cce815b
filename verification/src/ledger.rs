//! The installed-mods ledger: which mods are installed, whether each is
//! enabled, and at what version.
//!
//! A ledger is a finite map from mod identifier to `(enabled, version)`,
//! held as a sequence of entries with pairwise-distinct identifiers. It is
//! persisted wholesale as one file at the mods root, one line per entry with
//! the grammar `<flag>/<id>/<version>` where `<flag>` is empty (enabled) or
//! `-` (disabled). This module also gives the statefile grammar
//! `<id>/<version>` used by the marker file inside each mod's directory.

use vstd::prelude::*;
use vstd::string::*;

use crate::text::{
    chars_eq, find_char, find_first, is_ws, lemma_find_first, lemma_find_first_append,
    lemma_trim_noop, lines_vec, split_lines, substr, trim_spec, trim_str,
};

verus! {

/// Mathematical model of a [`LedgerEntry`].
pub ghost struct EntryView {
    pub id: Seq<char>,
    pub enabled: bool,
    pub version: Seq<char>,
}

/// One installed mod: its identifier, whether it is enabled, and the
/// installed version.
#[derive(Debug, Clone, PartialEq, Eq)]
pub struct LedgerEntry {
    pub id: String,
    pub enabled: bool,
    pub version: String,
}

impl View for LedgerEntry {
    type V = EntryView;

    open spec fn view(&self) -> EntryView {
        EntryView { id: self.id@, enabled: self.enabled, version: self.version@ }
    }
}

/// No two entries share an identifier.
pub open spec fn unique_keys(s: Seq<EntryView>) -> bool {
    forall|i: int, j: int| 0 <= i < j < s.len() ==> s[i].id != s[j].id
}

/// The map an entry sequence denotes; with duplicate identifiers the later
/// entry wins.
pub open spec fn entries_map(s: Seq<EntryView>) -> Map<Seq<char>, (bool, Seq<char>)>
    decreases s.len(),
{
    if s.len() == 0 {
        Map::empty()
    } else {
        entries_map(s.drop_last()).insert(s.last().id, (s.last().enabled, s.last().version))
    }
}

/// Index of the first entry with identifier `id`, or -1 if there is none.
pub open spec fn find_key(s: Seq<EntryView>, id: Seq<char>) -> int
    decreases s.len(),
{
    if s.len() == 0 {
        -1
    } else if s[0].id == id {
        0
    } else {
        let r = find_key(s.drop_first(), id);
        if r == -1 {
            -1
        } else {
            r + 1
        }
    }
}

pub proof fn lemma_find_key(s: Seq<EntryView>, id: Seq<char>)
    ensures
        find_key(s, id) == -1 ==> forall|i: int| 0 <= i < s.len() ==> s[i].id != id,
        find_key(s, id) != -1 ==> {
            &&& 0 <= find_key(s, id) < s.len()
            &&& s[find_key(s, id)].id == id
            &&& forall|i: int| 0 <= i < find_key(s, id) ==> s[i].id != id
        },
    decreases s.len(),
{
    if s.len() > 0 && s[0].id != id {
        let t = s.drop_first();
        lemma_find_key(t, id);
        assert forall|i: int| 0 <= i < s.len() && find_key(s, id) == -1 implies s[i].id != id by {
            if i > 0 {
                assert(t[i - 1] == s[i]);
            }
        }
        if find_key(s, id) != -1 {
            assert forall|i: int| 0 <= i < find_key(s, id) implies s[i].id != id by {
                if i > 0 {
                    assert(t[i - 1] == s[i]);
                }
            }
        }
    }
}

pub proof fn lemma_find_key_at(s: Seq<EntryView>, id: Seq<char>, i: int)
    requires
        0 <= i < s.len(),
        s[i].id == id,
        forall|k: int| 0 <= k < i ==> s[k].id != id,
    ensures
        find_key(s, id) == i,
    decreases s.len(),
{
    if i > 0 {
        let t = s.drop_first();
        assert forall|k: int| 0 <= k < i - 1 implies t[k].id != id by {
            assert(t[k] == s[k + 1]);
        }
        assert(t[i - 1] == s[i]);
        lemma_find_key_at(t, id, i - 1);
    }
}

/// An identifier is in the map exactly when some entry carries it.
pub proof fn lemma_entries_map_contains(s: Seq<EntryView>, id: Seq<char>)
    ensures
        entries_map(s).contains_key(id) <==> exists|i: int| 0 <= i < s.len() && s[i].id == id,
    decreases s.len(),
{
    if s.len() > 0 {
        let t = s.drop_last();
        lemma_entries_map_contains(t, id);
        if s.last().id == id {
            assert(s[s.len() - 1].id == id);
        } else {
            if exists|i: int| 0 <= i < t.len() && t[i].id == id {
                let i = choose|i: int| 0 <= i < t.len() && t[i].id == id;
                assert(s[i].id == id);
            }
            if exists|i: int| 0 <= i < s.len() && s[i].id == id {
                let i = choose|i: int| 0 <= i < s.len() && s[i].id == id;
                assert(t[i] == s[i]);
            }
        }
    }
}

/// With distinct identifiers, the map sends each entry's identifier to that
/// entry's flag and version.
pub proof fn lemma_entries_map_get(s: Seq<EntryView>, k: int)
    requires
        unique_keys(s),
        0 <= k < s.len(),
    ensures
        entries_map(s).contains_key(s[k].id),
        entries_map(s)[s[k].id] == (s[k].enabled, s[k].version),
    decreases s.len(),
{
    let t = s.drop_last();
    if k < s.len() - 1 {
        assert(s[k].id != s.last().id);
        assert(t[k] == s[k]);
        lemma_entries_map_get(t, k);
    }
}

proof fn lemma_entries_map_update(s: Seq<EntryView>, k: int, e: EntryView)
    requires
        unique_keys(s),
        0 <= k < s.len(),
        s[k].id == e.id,
    ensures
        entries_map(s.update(k, e)) == entries_map(s).insert(e.id, (e.enabled, e.version)),
    decreases s.len(),
{
    let u = s.update(k, e);
    if k == s.len() - 1 {
        assert(u.drop_last() =~= s.drop_last());
        assert(u.last() == e);
        assert(entries_map(u) =~= entries_map(s).insert(e.id, (e.enabled, e.version)));
    } else {
        assert(u.drop_last() =~= s.drop_last().update(k, e));
        assert(u.last() == s.last());
        assert(s.drop_last()[k] == s[k]);
        lemma_entries_map_update(s.drop_last(), k, e);
        assert(s[k].id != s.last().id);
        assert(entries_map(u) =~= entries_map(s).insert(e.id, (e.enabled, e.version)));
    }
}

proof fn lemma_entries_map_remove(s: Seq<EntryView>, k: int)
    requires
        unique_keys(s),
        0 <= k < s.len(),
    ensures
        entries_map(s.remove(k)) == entries_map(s).remove(s[k].id),
    decreases s.len(),
{
    let r = s.remove(k);
    if k == s.len() - 1 {
        assert(r =~= s.drop_last());
        lemma_entries_map_contains(s.drop_last(), s[k].id);
        assert forall|i: int| 0 <= i < s.drop_last().len() implies s.drop_last()[i].id != s[k].id by {
            assert(s.drop_last()[i] == s[i]);
        }
        assert(entries_map(r) =~= entries_map(s).remove(s[k].id));
    } else {
        assert(r.drop_last() =~= s.drop_last().remove(k));
        assert(r.last() == s.last());
        assert(s.drop_last()[k] == s[k]);
        lemma_entries_map_remove(s.drop_last(), k);
        assert(s[k].id != s.last().id);
        assert(entries_map(r) =~= entries_map(s).remove(s[k].id));
    }
}

/// The persisted ledger: a map from mod identifier to enabled flag and
/// version, held as entries with pairwise-distinct identifiers.
#[derive(Debug, Clone)]
pub struct InstalledLedger {
    entries: Vec<LedgerEntry>,
}

impl View for InstalledLedger {
    type V = Seq<EntryView>;

    closed spec fn view(&self) -> Seq<EntryView> {
        Seq::new(self.entries@.len(), |i: int| self.entries@[i]@)
    }
}

impl InstalledLedger {
    /// Entry identifiers are pairwise distinct. Constructors establish this
    /// and every operation preserves it.
    pub open spec fn wf(&self) -> bool {
        unique_keys(self@)
    }

    /// The map this ledger denotes.
    pub open spec fn as_map(&self) -> Map<Seq<char>, (bool, Seq<char>)> {
        entries_map(self@)
    }

    /// The empty ledger.
    pub fn new() -> (r: Self)
        ensures
            r@ == Seq::<EntryView>::empty(),
            r.wf(),
    {
        let r = InstalledLedger { entries: Vec::new() };
        proof {
            assert(r@ =~= Seq::<EntryView>::empty());
        }
        r
    }

    /// How many mods the ledger records.
    pub fn len(&self) -> (r: usize)
        ensures
            r == self@.len(),
    {
        self.entries.len()
    }

    /// The entry at a position, for iteration.
    pub fn entry_at(&self, i: usize) -> (r: &LedgerEntry)
        requires
            i < self@.len(),
        ensures
            r@ == self@[i as int],
    {
        &self.entries[i]
    }

    /// Position of the entry for `id`, if one exists.
    fn find_index(&self, id: &str) -> (r: Option<usize>)
        ensures
            match r {
                Some(i) => find_key(self@, id@) == i as int,
                None => find_key(self@, id@) == -1,
            },
    {
        let n = self.entries.len();
        let mut i: usize = 0;
        while i < n
            invariant
                n == self@.len(),
                0 <= i <= n,
                forall|k: int| 0 <= k < i ==> self@[k].id != id@,
            decreases n - i,
        {
            if chars_eq(self.entries[i].id.as_str(), id) {
                proof {
                    lemma_find_key_at(self@, id@, i as int);
                }
                return Some(i);
            }
            i = i + 1;
        }
        proof {
            lemma_find_key(self@, id@);
        }
        None
    }

    /// The entry for `id`, if the ledger records that mod.
    pub fn get(&self, id: &str) -> (r: Option<&LedgerEntry>)
        requires
            self.wf(),
        ensures
            match r {
                Some(e) => {
                    &&& self.as_map().contains_key(id@)
                    &&& e@.id == id@
                    &&& self.as_map()[id@] == (e@.enabled, e@.version)
                },
                None => !self.as_map().contains_key(id@),
            },
    {
        match self.find_index(id) {
            Some(i) => {
                proof {
                    lemma_find_key(self@, id@);
                    lemma_entries_map_get(self@, i as int);
                }
                Some(&self.entries[i])
            },
            None => {
                proof {
                    lemma_find_key(self@, id@);
                    lemma_entries_map_contains(self@, id@);
                }
                None
            },
        }
    }

    /// Does the ledger record this mod?
    pub fn contains(&self, id: &str) -> (r: bool)
        requires
            self.wf(),
        ensures
            r == self.as_map().contains_key(id@),
    {
        match self.get(id) {
            Some(_) => true,
            None => false,
        }
    }

    /// Record a mod: replaces the entry for `id` in place if one exists,
    /// else appends a new one.
    pub fn insert(&mut self, id: String, enabled: bool, version: String)
        requires
            old(self).wf(),
        ensures
            final(self).wf(),
            final(self).as_map() == old(self).as_map().insert(id@, (enabled, version@)),
            ({
                let e = EntryView { id: id@, enabled, version: version@ };
                let k = find_key(old(self)@, id@);
                if k == -1 {
                    final(self)@ == old(self)@.push(e)
                } else {
                    final(self)@ == old(self)@.update(k, e)
                }
            }),
    {
        let ghost e = EntryView { id: id@, enabled, version: version@ };
        match self.find_index(id.as_str()) {
            Some(i) => {
                proof {
                    lemma_find_key(self@, id@);
                }
                self.entries[i] = LedgerEntry { id, enabled, version };
                proof {
                    let s0 = old(self)@;
                    assert(self@ =~= s0.update(i as int, e));
                    lemma_entries_map_update(s0, i as int, e);
                }
            },
            None => {
                proof {
                    lemma_find_key(self@, id@);
                }
                self.entries.push(LedgerEntry { id, enabled, version });
                proof {
                    let s0 = old(self)@;
                    assert(self@ =~= s0.push(e));
                    assert(self@.drop_last() =~= s0);
                    assert(self.as_map() =~= old(self).as_map().insert(id@, (enabled, version@)));
                }
            },
        }
    }

    /// Forget a mod. Returns whether the ledger had recorded it; the entry,
    /// if any, is removed.
    pub fn remove(&mut self, id: &str) -> (r: bool)
        requires
            old(self).wf(),
        ensures
            final(self).wf(),
            r == old(self).as_map().contains_key(id@),
            final(self).as_map() == old(self).as_map().remove(id@),
            ({
                let k = find_key(old(self)@, id@);
                if k == -1 {
                    final(self)@ == old(self)@
                } else {
                    final(self)@ == old(self)@.remove(k)
                }
            }),
    {
        match self.find_index(id) {
            Some(i) => {
                proof {
                    lemma_find_key(self@, id@);
                    lemma_entries_map_contains(self@, id@);
                }
                self.entries.remove(i);
                proof {
                    let s0 = old(self)@;
                    assert(self@ =~= s0.remove(i as int));
                    lemma_entries_map_remove(s0, i as int);
                }
                true
            },
            None => {
                proof {
                    lemma_find_key(self@, id@);
                    lemma_entries_map_contains(self@, id@);
                    assert(self.as_map() =~= self.as_map().remove(id@));
                }
                false
            },
        }
    }
}

/// Why a ledger line or a statefile failed to parse.
#[derive(Debug, Clone, Copy, PartialEq, Eq)]
pub enum ParseError {
    /// The statefile holds no non-blank line.
    EmptyInput,
    /// The line does not fit the grammar: wrong number of separators, or a
    /// flag other than empty or `-`.
    BadFormat,
    /// The identifier field is empty.
    EmptyId,
    /// The version field is empty.
    EmptyVersion,
}

impl ParseError {
    /// A human-readable description of the failure.
    pub fn message(&self) -> (r: &'static str)
        ensures
            self is EmptyInput ==> r@ == "statefile can't be empty"@,
            self is BadFormat ==> r@ == "invalid modspec format"@,
            self is EmptyId ==> r@ == "id can't be empty"@,
            self is EmptyVersion ==> r@ == "version can't be empty"@,
    {
        match self {
            ParseError::EmptyInput => "statefile can't be empty",
            ParseError::BadFormat => "invalid modspec format",
            ParseError::EmptyId => "id can't be empty",
            ParseError::EmptyVersion => "version can't be empty",
        }
    }
}

/// The flag field of a ledger line: empty when enabled, `-` when disabled.
pub open spec fn flag_chars(enabled: bool) -> Seq<char> {
    if enabled {
        Seq::empty()
    } else {
        seq!['-']
    }
}

/// One ledger line, without its terminating newline:
/// `<flag>/<id>/<version>`.
pub open spec fn modspec_line(e: EntryView) -> Seq<char> {
    flag_chars(e.enabled) + seq!['/'] + e.id + seq!['/'] + e.version
}

/// The full text of the persisted ledger: one newline-terminated line per
/// entry, in entry order.
pub open spec fn serialize_entries(s: Seq<EntryView>) -> Seq<char>
    decreases s.len(),
{
    if s.len() == 0 {
        Seq::empty()
    } else {
        serialize_entries(s.drop_last()) + modspec_line(s.last()) + seq!['\n']
    }
}

/// A field value that serializes and parses back exactly: non-empty, and
/// free of separators, newlines and surrounding-whitespace characters.
pub open spec fn valid_token(t: Seq<char>) -> bool {
    t.len() > 0 && forall|i: int|
        0 <= i < t.len() ==> t[i] != '/' && t[i] != '\n' && !is_ws(t[i])
}

/// Both fields of an entry are valid tokens.
pub open spec fn valid_entry(e: EntryView) -> bool {
    valid_token(e.id) && valid_token(e.version)
}

/// What parsing one (already trimmed) ledger line yields:
/// `<flag>/<id>/<version>` with the flag empty or `-`, exactly two
/// separators, and non-empty fields.
pub open spec fn parse_modspec_chars(line: Seq<char>) -> Result<EntryView, ParseError> {
    let i = find_first(line, '/');
    if i == -1 {
        Err(ParseError::BadFormat)
    } else {
        let flag = line.take(i);
        let rest = line.skip(i + 1);
        let j = find_first(rest, '/');
        if j == -1 {
            Err(ParseError::BadFormat)
        } else {
            let id = rest.take(j);
            let version = rest.skip(j + 1);
            if !(flag == Seq::<char>::empty() || flag == seq!['-']) {
                Err(ParseError::BadFormat)
            } else if find_first(version, '/') != -1 {
                Err(ParseError::BadFormat)
            } else if id.len() == 0 {
                Err(ParseError::EmptyId)
            } else if version.len() == 0 {
                Err(ParseError::EmptyVersion)
            } else {
                Ok(EntryView { id, enabled: flag.len() == 0, version })
            }
        }
    }
}

/// The view of a line-parse result.
pub open spec fn parse_result_view(r: Result<LedgerEntry, ParseError>) -> Result<
    EntryView,
    ParseError,
> {
    match r {
        Ok(e) => Ok(e@),
        Err(p) => Err(p),
    }
}

/// Parse one ledger line (already stripped of surrounding whitespace).
pub fn parse_modspec(line: &str) -> (r: Result<LedgerEntry, ParseError>)
    ensures
        parse_result_view(r) == parse_modspec_chars(line@),
{
    let n = line.unicode_len();
    let i = match find_char(line, '/') {
        None => {
            return Err(ParseError::BadFormat);
        },
        Some(i) => i,
    };
    proof {
        lemma_find_first(line@, '/');
    }
    let flag = substr(line, 0, i);
    let rest = substr(line, i + 1, n);
    let rn = rest.unicode_len();
    let j = match find_char(rest.as_str(), '/') {
        None => {
            return Err(ParseError::BadFormat);
        },
        Some(j) => j,
    };
    proof {
        lemma_find_first(rest@, '/');
    }
    let id = substr(rest.as_str(), 0, j);
    let version = substr(rest.as_str(), j + 1, rn);
    let fl = flag.unicode_len();
    let flag_ok = fl == 0 || (fl == 1 && flag.as_str().get_char(0) == '-');
    proof {
        if fl == 0 {
            assert(flag@ =~= Seq::<char>::empty());
        }
        if fl == 1 && flag@[0] == '-' {
            assert(flag@ =~= seq!['-']);
        }
        assert(flag_ok == (flag@ == Seq::<char>::empty() || flag@ == seq!['-']));
    }
    if !flag_ok {
        return Err(ParseError::BadFormat);
    }
    if let Some(_) = find_char(version.as_str(), '/') {
        return Err(ParseError::BadFormat);
    }
    if id.unicode_len() == 0 {
        return Err(ParseError::EmptyId);
    }
    if version.unicode_len() == 0 {
        return Err(ParseError::EmptyVersion);
    }
    Ok(LedgerEntry { id, enabled: fl == 0, version })
}

impl InstalledLedger {
    /// The full text of the persisted ledger file for this ledger: one line
    /// per entry, `<flag>/<id>/<version>`, each newline-terminated.
    pub fn serialize(&self) -> (r: String)
        ensures
            r@ == serialize_entries(self@),
    {
        let mut out = String::new();
        let n = self.entries.len();
        let mut i: usize = 0;
        proof {
            reveal_strlit("-");
            reveal_strlit("/");
            reveal_strlit("\n");
            assert(out@ =~= serialize_entries(self@.take(0)));
        }
        while i < n
            invariant
                n == self@.len(),
                0 <= i <= n,
                out@ == serialize_entries(self@.take(i as int)),
                "-"@ == seq!['-'],
                "/"@ == seq!['/'],
                "\n"@ == seq!['\n'],
            decreases n - i,
        {
            let e = &self.entries[i];
            if !e.enabled {
                out.append("-");
            }
            out.append("/");
            out.append(e.id.as_str());
            out.append("/");
            out.append(e.version.as_str());
            out.append("\n");
            proof {
                let s = self@;
                assert(s.take(i + 1).drop_last() =~= s.take(i as int));
                assert(s.take(i + 1).last() == s[i as int]);
                assert(out@ =~= serialize_entries(s.take(i + 1)));
            }
            i = i + 1;
        }
        proof {
            assert(self@.take(n as int) =~= self@);
        }
        out
    }
}

/// The ledger a line contributes: a parsed entry is inserted, a blank or
/// malformed line leaves the map unchanged.
pub open spec fn load_step(
    m: Map<Seq<char>, (bool, Seq<char>)>,
    line: Seq<char>,
) -> Map<Seq<char>, (bool, Seq<char>)> {
    let t = trim_spec(line);
    if t.len() == 0 {
        m
    } else {
        match parse_modspec_chars(t) {
            Ok(e) => m.insert(e.id, (e.enabled, e.version)),
            Err(_) => m,
        }
    }
}

/// Is this line skipped with a warning: non-blank but malformed?
pub open spec fn skipped_line(line: Seq<char>) -> bool {
    trim_spec(line).len() > 0 && parse_modspec_chars(trim_spec(line)) is Err
}

/// The ledger a sequence of lines denotes, folded over `m`; a later line
/// for the same identifier wins.
pub open spec fn load_lines(
    lines: Seq<Seq<char>>,
    m: Map<Seq<char>, (bool, Seq<char>)>,
) -> Map<Seq<char>, (bool, Seq<char>)>
    decreases lines.len(),
{
    if lines.len() == 0 {
        m
    } else {
        load_lines(lines.drop_first(), load_step(m, lines[0]))
    }
}

/// How many lines of the file are skipped with a warning.
pub open spec fn count_skipped(lines: Seq<Seq<char>>) -> int
    decreases lines.len(),
{
    if lines.len() == 0 {
        0int
    } else {
        (if skipped_line(lines[0]) {
            1int
        } else {
            0int
        }) + count_skipped(lines.drop_first())
    }
}

/// The ledger the persisted file text denotes.
pub open spec fn load_expectfile_chars(s: Seq<char>) -> Map<Seq<char>, (bool, Seq<char>)> {
    load_lines(split_lines(s), Map::empty())
}

/// Read the persisted ledger file: blank lines are ignored, malformed
/// lines are skipped (their count is returned as the warning signal, never
/// an error), later lines win over earlier ones for the same identifier.
pub fn read_expectfile(contents: &str) -> (r: (InstalledLedger, usize))
    ensures
        r.0.wf(),
        r.0.as_map() == load_expectfile_chars(contents@),
        r.1 as int == count_skipped(split_lines(contents@)),
{
    let lines = lines_vec(contents);
    let ghost lv = split_lines(contents@);
    let mut led = InstalledLedger::new();
    let mut skipped: usize = 0;
    let n = lines.len();
    let mut i: usize = 0;
    proof {
        assert(lv.skip(0) =~= lv);
        assert(led.as_map() =~= Map::<Seq<char>, (bool, Seq<char>)>::empty());
    }
    while i < n
        invariant
            n == lines.len(),
            lines.deep_view() == lv,
            0 <= i <= n,
            skipped <= i,
            led.wf(),
            load_lines(lv.skip(i as int), led.as_map()) == load_expectfile_chars(contents@),
            skipped as int + count_skipped(lv.skip(i as int)) == count_skipped(lv),
        decreases n - i,
    {
        let ghost m0 = led.as_map();
        proof {
            assert(lv.skip(i as int)[0] == lv[i as int]);
            assert(lv.skip(i as int).drop_first() =~= lv.skip(i + 1));
            assert(lines@[i as int]@ == lv[i as int]);
        }
        let t = trim_str(lines[i].as_str());
        if t.unicode_len() > 0 {
            match parse_modspec(t.as_str()) {
                Ok(e) => {
                    led.insert(e.id, e.enabled, e.version);
                },
                Err(_) => {
                    skipped = skipped + 1;
                },
            }
        }
        proof {
            assert(led.as_map() == load_step(m0, lv[i as int]));
        }
        i = i + 1;
    }
    proof {
        assert(lv.skip(n as int) =~= Seq::<Seq<char>>::empty());
    }
    (led, skipped)
}

proof fn lemma_serialize_front(s: Seq<EntryView>)
    requires
        s.len() > 0,
    ensures
        serialize_entries(s) == modspec_line(s[0]) + seq!['\n'] + serialize_entries(
            s.drop_first(),
        ),
    decreases s.len(),
{
    if s.len() == 1 {
        assert(s.drop_last() =~= Seq::<EntryView>::empty());
        assert(s.drop_first() =~= Seq::<EntryView>::empty());
        assert(s.last() == s[0]);
        assert(serialize_entries(s) =~= modspec_line(s[0]) + seq!['\n'] + serialize_entries(
            s.drop_first(),
        ));
    } else {
        let d = s.drop_last();
        lemma_serialize_front(d);
        assert(d[0] == s[0]);
        assert(d.drop_first() =~= s.drop_first().drop_last());
        assert(s.drop_first().last() == s.last());
        assert(serialize_entries(s) =~= modspec_line(s[0]) + seq!['\n'] + serialize_entries(
            s.drop_first(),
        ));
    }
}

/// A valid entry's line is trim-stable, holds no newline, and parses back
/// to exactly that entry.
proof fn lemma_line_parses_back(e: EntryView)
    requires
        valid_entry(e),
    ensures
        forall|k: int| 0 <= k < modspec_line(e).len() ==> modspec_line(e)[k] != '\n',
        trim_spec(modspec_line(e)) == modspec_line(e),
        parse_modspec_chars(modspec_line(e)) == Ok::<_, ParseError>(e),
{
    let line = modspec_line(e);
    let flag = flag_chars(e.enabled);
    let fl = flag.len() as int;
    let il = e.id.len() as int;
    let vl = e.version.len() as int;
    assert(line.len() == fl + 1 + il + 1 + vl);
    assert forall|k: int| 0 <= k < line.len() implies line[k] != '\n' by {
        if k < fl {
            assert(line[k] == flag[k]);
        } else if k == fl {
            assert(line[k] == '/');
        } else if k < fl + 1 + il {
            assert(line[k] == e.id[k - fl - 1]);
        } else if k == fl + 1 + il {
            assert(line[k] == '/');
        } else {
            assert(line[k] == e.version[k - (fl + 1 + il + 1)]);
        }
    }
    // trim leaves the line unchanged: it opens with `-` or `/` and closes
    // with a version character
    assert(!is_ws(line[0]));
    assert(line.last() == e.version[vl - 1]);
    lemma_trim_noop(line);
    // parsing: the separators stand right after the flag and the identifier
    let rest = e.id + seq!['/'] + e.version;
    assert(line =~= flag + seq!['/'] + rest);
    lemma_find_first_append(flag, '/', rest);
    assert(find_first(line, '/') == fl);
    assert(line.take(fl) =~= flag);
    assert(line.skip(fl + 1) =~= rest);
    lemma_find_first_append(e.id, '/', e.version);
    assert(find_first(rest, '/') == il);
    assert(rest.take(il) =~= e.id);
    assert(rest.skip(il + 1) =~= e.version);
    crate::text::lemma_find_first_none(e.version, '/');
    assert((flag.len() == 0) == e.enabled);
    assert(parse_modspec_chars(line) == Ok::<_, ParseError>(e));
}

/// The map obtained by inserting the entries of `s` into `m`, first to
/// last, each later entry overwriting any earlier one with its identifier.
pub open spec fn insert_all(
    m: Map<Seq<char>, (bool, Seq<char>)>,
    s: Seq<EntryView>,
) -> Map<Seq<char>, (bool, Seq<char>)>
    decreases s.len(),
{
    if s.len() == 0 {
        m
    } else {
        insert_all(m.insert(s[0].id, (s[0].enabled, s[0].version)), s.drop_first())
    }
}

proof fn lemma_insert_all_push(m: Map<Seq<char>, (bool, Seq<char>)>, s: Seq<EntryView>, e: EntryView)
    ensures
        insert_all(m, s.push(e)) == insert_all(m, s).insert(e.id, (e.enabled, e.version)),
    decreases s.len(),
{
    let p = s.push(e);
    assert(p.len() == s.len() + 1);
    if s.len() == 0 {
        assert(p[0] == e);
        assert(p.drop_first() =~= Seq::<EntryView>::empty());
        assert(insert_all(m, p) == insert_all(
            m.insert(p[0].id, (p[0].enabled, p[0].version)),
            p.drop_first(),
        ));
        assert(insert_all(m.insert(e.id, (e.enabled, e.version)), Seq::<EntryView>::empty())
            == m.insert(e.id, (e.enabled, e.version)));
        assert(insert_all(m, s) == m);
    } else {
        assert(p[0] == s[0]);
        assert(p.drop_first() =~= s.drop_first().push(e));
        let m1 = m.insert(s[0].id, (s[0].enabled, s[0].version));
        assert(insert_all(m, p) == insert_all(m1, p.drop_first()));
        lemma_insert_all_push(m1, s.drop_first(), e);
        assert(insert_all(m, s) == insert_all(m1, s.drop_first()));
    }
}

proof fn lemma_insert_all_entries_map(s: Seq<EntryView>)
    ensures
        insert_all(Map::empty(), s) == entries_map(s),
    decreases s.len(),
{
    if s.len() > 0 {
        lemma_insert_all_entries_map(s.drop_last());
        lemma_insert_all_push(Map::empty(), s.drop_last(), s.last());
        assert(s.drop_last().push(s.last()) =~= s);
    }
}

proof fn lemma_load_serialized(s: Seq<EntryView>, m: Map<Seq<char>, (bool, Seq<char>)>)
    requires
        forall|i: int| 0 <= i < s.len() ==> valid_entry(#[trigger] s[i]),
    ensures
        load_lines(split_lines(serialize_entries(s)), m) == insert_all(m, s),
    decreases s.len(),
{
    if s.len() > 0 {
        let e = s[0];
        let line = modspec_line(e);
        let tail = serialize_entries(s.drop_first());
        lemma_serialize_front(s);
        lemma_line_parses_back(e);
        lemma_split_lines_cons_line(line, tail);
        let ls = split_lines(serialize_entries(s));
        assert(ls == seq![line] + split_lines(tail));
        assert(ls[0] == line);
        assert(ls.drop_first() =~= split_lines(tail));
        assert(load_step(m, line) == m.insert(e.id, (e.enabled, e.version)));
        lemma_load_serialized(s.drop_first(), m.insert(e.id, (e.enabled, e.version)));
    } else {
        assert(split_lines(serialize_entries(s)) =~= Seq::<Seq<char>>::empty());
    }
}

/// Splitting `l + '\n' + rest` into lines, where `l` holds no newline,
/// yields `l` followed by the lines of `rest`.
proof fn lemma_split_lines_cons_line(l: Seq<char>, rest: Seq<char>)
    requires
        forall|k: int| 0 <= k < l.len() ==> l[k] != '\n',
    ensures
        split_lines(l + seq!['\n'] + rest) == seq![l] + split_lines(rest),
{
    let s = l + seq!['\n'] + rest;
    lemma_find_first_append(l, '\n', rest);
    assert(s.take(l.len() as int) =~= l);
    assert(s.skip(l.len() as int + 1) =~= rest);
    assert(split_lines(s) == seq![l] + split_lines(rest));
}

/// LEDGER ROUND-TRIP LAW: for any sequence of entries whose identifiers and
/// versions are valid tokens, writing the ledger file and reading it back
/// yields exactly the map the entries denote — whatever the entry order,
/// and even with repeated identifiers (the later entry wins on both sides).
/// In particular [`read_expectfile`] inverts [`InstalledLedger::serialize`].
pub proof fn lemma_ledger_round_trip(s: Seq<EntryView>)
    requires
        forall|i: int| 0 <= i < s.len() ==> valid_entry(#[trigger] s[i]),
    ensures
        load_expectfile_chars(serialize_entries(s)) == entries_map(s),
{
    lemma_load_serialized(s, Map::empty());
    lemma_insert_all_entries_map(s);
}

/// The entries after the mod `id` has its enabled flag set to `enabled`:
/// its entry, if any, keeps its version and position and takes the flag;
/// nothing else changes. Disabling is `enabled == false`, enabling `true`.
pub open spec fn set_enabled(s: Seq<EntryView>, id: Seq<char>, enabled: bool) -> Seq<EntryView> {
    let k = find_key(s, id);
    if k == -1 {
        s
    } else {
        s.update(k, EntryView { id, enabled, version: s[k].version })
    }
}

/// IDEMPOTENT DISABLE LAW: disabling a mod twice leaves exactly the ledger
/// that disabling it once leaves — entry for entry, so the persisted file
/// is also identical. (Stated for either value of the flag, so it covers
/// enabling too.)
pub proof fn lemma_set_enabled_idempotent(s: Seq<EntryView>, id: Seq<char>, enabled: bool)
    ensures
        set_enabled(set_enabled(s, id, enabled), id, enabled) == set_enabled(s, id, enabled),
        serialize_entries(set_enabled(set_enabled(s, id, enabled), id, enabled))
            == serialize_entries(set_enabled(s, id, enabled)),
{
    let k = find_key(s, id);
    lemma_find_key(s, id);
    if k != -1 {
        let e = EntryView { id, enabled, version: s[k].version };
        let u = s.update(k, e);
        assert forall|j: int| 0 <= j < k implies u[j].id != id by {
            assert(u[j] == s[j]);
        }
        lemma_find_key_at(u, id, k);
        assert(u.update(k, EntryView { id, enabled, version: u[k].version }) =~= u);
    }
}

/// The text of a per-mod statefile: `<id>/<version>`.
pub open spec fn state_line(id: Seq<char>, version: Seq<char>) -> Seq<char> {
    id + seq!['/'] + version
}

/// The statefile contents recording that a directory holds the mod `id` at
/// `version`.
pub fn write_state(id: &str, version: &str) -> (r: String)
    ensures
        r@ == state_line(id@, version@),
{
    let mut out = String::from_str(id);
    out.append("/");
    out.append(version);
    proof {
        reveal_strlit("/");
        assert(out@ =~= state_line(id@, version@));
    }
    out
}

/// A statefile written for valid tokens parses back to exactly that
/// identifier and version, so reconciliation recovers what install
/// recorded.
pub proof fn lemma_state_round_trip(id: Seq<char>, version: Seq<char>)
    requires
        valid_token(id),
        valid_token(version),
    ensures
        parse_state_chars(state_line(id, version)) == Ok::<_, ParseError>((id, version)),
{
    let s = state_line(id, version);
    assert forall|k: int| 0 <= k < s.len() implies s[k] != '\n' && (k == 0 ==> !is_ws(s[k])) && (k
        == s.len() - 1 ==> !is_ws(s[k])) by {
        if k < id.len() {
            assert(s[k] == id[k]);
        } else if k == id.len() {
            assert(s[k] == '/');
        } else {
            assert(s[k] == version[k - id.len() - 1]);
        }
    }
    crate::text::lemma_find_first_none(s, '\n');
    assert(split_lines(s) == seq![s]);
    lemma_trim_noop(s);
    assert(trim_spec(seq![s][0]).len() > 0);
    lemma_first_nonblank_at(seq![s], 0);
    lemma_find_first_append(id, '/', version);
    assert(s.take(id.len() as int) =~= id);
    assert(s.skip(id.len() as int + 1) =~= version);
}

/// Index of the first line that is not blank after trimming, or -1.
pub open spec fn first_nonblank(lines: Seq<Seq<char>>) -> int
    decreases lines.len(),
{
    if lines.len() == 0 {
        -1
    } else if trim_spec(lines[0]).len() > 0 {
        0
    } else {
        let r = first_nonblank(lines.drop_first());
        if r == -1 {
            -1
        } else {
            r + 1
        }
    }
}

pub proof fn lemma_first_nonblank(lines: Seq<Seq<char>>)
    ensures
        first_nonblank(lines) == -1 ==> forall|i: int|
            0 <= i < lines.len() ==> trim_spec(lines[i]).len() == 0,
        first_nonblank(lines) != -1 ==> {
            &&& 0 <= first_nonblank(lines) < lines.len()
            &&& trim_spec(lines[first_nonblank(lines)]).len() > 0
            &&& forall|i: int|
                0 <= i < first_nonblank(lines) ==> trim_spec(lines[i]).len() == 0
        },
    decreases lines.len(),
{
    if lines.len() > 0 && trim_spec(lines[0]).len() == 0 {
        let t = lines.drop_first();
        lemma_first_nonblank(t);
        assert forall|i: int|
            0 <= i < lines.len() && first_nonblank(lines) == -1 implies trim_spec(
            lines[i],
        ).len() == 0 by {
            if i > 0 {
                assert(t[i - 1] == lines[i]);
            }
        }
        if first_nonblank(lines) != -1 {
            assert forall|i: int| 0 <= i < first_nonblank(lines) implies trim_spec(
                lines[i],
            ).len() == 0 by {
                if i > 0 {
                    assert(t[i - 1] == lines[i]);
                }
            }
        }
    }
}

proof fn lemma_first_nonblank_at(lines: Seq<Seq<char>>, i: int)
    requires
        0 <= i < lines.len(),
        trim_spec(lines[i]).len() > 0,
        forall|k: int| 0 <= k < i ==> trim_spec(lines[k]).len() == 0,
    ensures
        first_nonblank(lines) == i,
    decreases lines.len(),
{
    if i > 0 {
        let t = lines.drop_first();
        assert forall|k: int| 0 <= k < i - 1 implies trim_spec(t[k]).len() == 0 by {
            assert(t[k] == lines[k + 1]);
        }
        assert(t[i - 1] == lines[i]);
        lemma_first_nonblank_at(t, i - 1);
    }
}

/// What parsing a statefile yields: the first non-blank line, trimmed, must
/// read `<id>/<version>` with a non-empty identifier (up to the first
/// separator) and a non-empty version (all the rest).
pub open spec fn parse_state_chars(s: Seq<char>) -> Result<(Seq<char>, Seq<char>), ParseError> {
    let ls = split_lines(s);
    let k = first_nonblank(ls);
    if k == -1 {
        Err(ParseError::EmptyInput)
    } else {
        let line = trim_spec(ls[k]);
        let j = find_first(line, '/');
        if j == -1 {
            Err(ParseError::BadFormat)
        } else {
            let id = line.take(j);
            let version = line.skip(j + 1);
            if id.len() == 0 {
                Err(ParseError::EmptyId)
            } else if version.len() == 0 {
                Err(ParseError::EmptyVersion)
            } else {
                Ok((id, version))
            }
        }
    }
}

/// The view of a statefile-parse result.
pub open spec fn state_result_view(r: Result<(String, String), ParseError>) -> Result<
    (Seq<char>, Seq<char>),
    ParseError,
> {
    match r {
        Ok((id, v)) => Ok((id@, v@)),
        Err(p) => Err(p),
    }
}

/// Parse a per-mod statefile: the identifier and version it records.
pub fn parse_state(contents: &str) -> (r: Result<(String, String), ParseError>)
    ensures
        state_result_view(r) == parse_state_chars(contents@),
{
    let lines = lines_vec(contents);
    let ghost lv = split_lines(contents@);
    let n = lines.len();
    let mut i: usize = 0;
    while i < n
        invariant
            n == lines.len(),
            lines.deep_view() == lv,
            lv == split_lines(contents@),
            0 <= i <= n,
            forall|k: int| 0 <= k < i ==> trim_spec(lv[k]).len() == 0,
        decreases n - i,
    {
        proof {
            assert(lines@[i as int]@ == lv[i as int]);
        }
        let line = trim_str(lines[i].as_str());
        if line.unicode_len() > 0 {
            proof {
                lemma_first_nonblank_at(lv, i as int);
                lemma_find_first(line@, '/');
            }
            let ln = line.unicode_len();
            let j = match find_char(line.as_str(), '/') {
                None => {
                    return Err(ParseError::BadFormat);
                },
                Some(j) => j,
            };
            let id = substr(line.as_str(), 0, j);
            let version = substr(line.as_str(), j + 1, ln);
            if id.unicode_len() == 0 {
                return Err(ParseError::EmptyId);
            }
            if version.unicode_len() == 0 {
                return Err(ParseError::EmptyVersion);
            }
            return Ok((id, version));
        }
        i = i + 1;
    }
    proof {
        lemma_first_nonblank(lv);
    }
    Err(ParseError::EmptyInput)
}

} // verus!
