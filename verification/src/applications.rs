//! The application picker: which applications the room hears. A draft edited on its own and
//! applied on Done, because every apply swaps the capture session and gaps the room for the
//! length of one backend start.
use vstd::prelude::*;

use crate::selection::{normalised, AppKey, AudioSelection, AudioSource, KeySet, Platform};
use crate::settings::{keys_of_names_on, name_keys, name_keys_on, AudioApplications, AudioMode};
use crate::text::{
    compare_str, concat, decimal, decimal_string, lemma_text_lt_transitive, lemma_text_lt_trichotomy,
    owned, text_lt, Order,
};

verus! {

/// A row in the picker: an identity, what to call it, and whether the platform reports it
/// playing audio now.
#[derive(Debug, Clone, PartialEq, Eq)]
pub struct ApplicationRow {
    pub key: AppKey,
    pub label: String,
    pub playing: bool,
}

/// A row as plain values: identity, label, playing.
pub open spec fn row_view(r: ApplicationRow) -> (Seq<char>, Seq<char>, bool) {
    (r.key@, r.label@, r.playing)
}

/// Rows as plain values.
pub open spec fn rows_view(s: Seq<ApplicationRow>) -> Seq<(Seq<char>, Seq<char>, bool)> {
    s.map_values(|r: ApplicationRow| row_view(r))
}

/// The playing rows the reported sources give, in the order reported.
pub open spec fn playing_rows(s: Seq<AudioSource>) -> Seq<(Seq<char>, Seq<char>, bool)> {
    s.map_values(|x: AudioSource| (x.key@, x.label@, true))
}

/// `a` sorts before `b`: by label, then by identity.
pub open spec fn row_before(a: (Seq<char>, Seq<char>, bool), b: (Seq<char>, Seq<char>, bool)) -> bool {
    text_lt(a.1, b.1) || (a.1 == b.1 && text_lt(a.0, b.0))
}

/// `a` does not sort after `b`.
pub open spec fn row_not_after(a: (Seq<char>, Seq<char>, bool), b: (Seq<char>, Seq<char>, bool)) -> bool {
    row_before(a, b) || (a.1 == b.1 && a.0 == b.0)
}

/// Rows in label order, ties by identity.
pub open spec fn rows_in_order(s: Seq<(Seq<char>, Seq<char>, bool)>) -> bool {
    forall|i: int, j: int| 0 <= i < j < s.len() ==> row_not_after(#[trigger] s[i], #[trigger] s[j])
}

/// Whether some reported source has identity `k`.
pub open spec fn reported_has(s: Seq<AudioSource>, k: Seq<char>) -> bool {
    exists|i: int| 0 <= i < s.len() && (#[trigger] s[i]).key@ == k
}

/// The chosen identities nobody reports, as rows labelled by identity, in identity order.
pub open spec fn absent_rows(keys: Seq<Seq<char>>, s: Seq<AudioSource>) -> Seq<(Seq<char>, Seq<char>, bool)>
    decreases keys.len(),
{
    if keys.len() == 0 {
        Seq::empty()
    } else {
        let r = absent_rows(keys.drop_last(), s);
        if reported_has(s, keys.last()) {
            r
        } else {
            r.push((keys.last(), keys.last(), false))
        }
    }
}

/// `row_not_after` is transitive.
proof fn lemma_not_after_transitive(
    a: (Seq<char>, Seq<char>, bool),
    b: (Seq<char>, Seq<char>, bool),
    c: (Seq<char>, Seq<char>, bool),
)
    requires
        row_not_after(a, b),
        row_not_after(b, c),
    ensures
        row_not_after(a, c),
{
    if text_lt(a.1, b.1) && text_lt(b.1, c.1) {
        lemma_text_lt_transitive(a.1, b.1, c.1);
    }
    if a.1 == b.1 && b.1 == c.1 && text_lt(a.0, b.0) && text_lt(b.0, c.0) {
        lemma_text_lt_transitive(a.0, b.0, c.0);
    }
}

/// Compares two rows by label, then identity.
fn compare_rows(a: &ApplicationRow, b: &ApplicationRow) -> (r: Order)
    ensures
        (r == Order::Less) == row_before(row_view(*a), row_view(*b)),
        (r == Order::Equal) == (a.label@ == b.label@ && a.key@ == b.key@),
        (r == Order::Greater) == row_before(row_view(*b), row_view(*a)),
{
    proof {
        lemma_text_lt_trichotomy(a.label@, b.label@);
        lemma_text_lt_trichotomy(a.key@, b.key@);
    }
    match compare_str(a.label.as_str(), b.label.as_str()) {
        Order::Less => Order::Less,
        Order::Greater => Order::Greater,
        Order::Equal => compare_str(a.key.as_str(), b.key.as_str()),
    }
}

/// What the platform last reported, and the draft the user is editing.
#[derive(Debug)]
pub struct ApplicationPicker {
    /// The sources the platform reported last.
    pub reported: Vec<AudioSource>,
    /// Draft mode; `false` is every application except brp.
    pub only: bool,
    /// Draft set, kept in both modes so flipping to every application and back loses nothing.
    pub chosen: KeySet,
}

impl ApplicationPicker {
    /// Opens with what the platform reports and the stored choice as the draft: the stored
    /// choice, not the selection in force, because under `all` only the settings still hold the
    /// names.
    /// Names are read under the POSIX rule.
    pub fn new(reported: Vec<AudioSource>, stored: &AudioApplications) -> (p: ApplicationPicker)
        ensures
            p.reported@ == reported@,
            p.only == (stored.mode == AudioMode::Only),
            p.chosen.wf(),
            p.chosen.members() == name_keys(stored.names@),
    {
        ApplicationPicker::new_on(reported, stored, Platform::Posix)
    }

    /// As [`ApplicationPicker::new`], with the stored names read under the rule of `platform`.
    pub fn new_on(reported: Vec<AudioSource>, stored: &AudioApplications, platform: Platform) -> (p: ApplicationPicker)
        ensures
            p.reported@ == reported@,
            p.only == (stored.mode == AudioMode::Only),
            p.chosen.wf(),
            p.chosen.members() == name_keys_on(stored.names@, platform),
    {
        ApplicationPicker {
            reported,
            only: stored.mode == AudioMode::Only,
            chosen: keys_of_names_on(&stored.names, platform),
        }
    }

    /// Replaces the reported list and keeps the draft: a refresh mid-edit must not discard the
    /// edit.
    pub fn refresh(&mut self, reported: Vec<AudioSource>)
        ensures
            final(self).reported@ == reported@,
            final(self).only == old(self).only,
            final(self).chosen == old(self).chosen,
    {
        self.reported = reported;
    }

    /// The rows to draw: what is playing first, in label order, then what is chosen but absent,
    /// in identity order, which is its label order, so a refresh does not reshuffle the list.
    pub fn rows(&self) -> (rows: Vec<ApplicationRow>)
        requires
            self.chosen.wf(),
        ensures
            rows@.len() >= self.reported@.len(),
            rows_in_order(rows_view(rows@).take(self.reported@.len() as int)),
            rows_view(rows@).take(self.reported@.len() as int).to_multiset() == playing_rows(
                self.reported@,
            ).to_multiset(),
            rows_view(rows@).skip(self.reported@.len() as int) == absent_rows(self.chosen@, self.reported@),
    {
        let mut rows: Vec<ApplicationRow> = Vec::new();
        let n = self.reported.len();
        let ghost playing = playing_rows(self.reported@);
        let mut i: usize = 0;
        proof {
            assert(rows_view(rows@) =~= Seq::empty());
            assert(playing.take(0) =~= Seq::empty());
        }
        while i < n
            invariant
                n == self.reported@.len(),
                playing == playing_rows(self.reported@),
                i <= n,
                rows@.len() == i,
                rows_in_order(rows_view(rows@)),
                rows_view(rows@).to_multiset() == playing.take(i as int).to_multiset(),
            decreases n - i,
        {
            let source = &self.reported[i];
            let row = ApplicationRow { key: source.key.copy(), label: owned(source.label.as_str()), playing: true };
            let mut pos: usize = rows.len();
            while pos > 0 && compare_rows(&rows[pos - 1], &row) == Order::Greater
                invariant
                    pos <= rows@.len(),
                    forall|j: int| pos <= j < rows@.len() ==> row_before(row_view(row), #[trigger] row_view(rows@[j])),
                decreases pos,
            {
                pos = pos - 1;
            }
            let ghost before = rows_view(rows@);
            let ghost rv = row_view(row);
            proof {
                if pos > 0 {
                    lemma_text_lt_trichotomy(before[pos - 1].1, rv.1);
                    lemma_text_lt_trichotomy(before[pos - 1].0, rv.0);
                    assert(row_not_after(before[pos - 1], rv));
                }
            }
            rows.insert(pos, row);
            proof {
                let after = rows_view(rows@);
                assert(after =~= before.insert(pos as int, rv));
                assert forall|a: int, b: int| 0 <= a < b < after.len() implies row_not_after(#[trigger] after[a], #[trigger] after[b]) by {
                    if a < pos && b < pos {
                        assert(after[a] == before[a] && after[b] == before[b]);
                    } else if a < pos && b == pos {
                        assert(after[a] == before[a]);
                        if a < pos - 1 {
                            lemma_not_after_transitive(before[a], before[pos - 1], rv);
                        }
                    } else if a < pos {
                        assert(after[a] == before[a] && after[b] == before[b - 1]);
                    } else if a == pos {
                        assert(after[b] == before[b - 1]);
                        assert(row_before(rv, row_view(rows@[b])));
                    } else {
                        assert(after[a] == before[a - 1] && after[b] == before[b - 1]);
                    }
                }
                vstd::seq_lib::to_multiset_insert(before, pos as int, rv);
                assert(playing.take(i + 1) =~= playing.take(i as int).push(playing[i as int]));
                vstd::seq_lib::to_multiset_build(playing.take(i as int), playing[i as int]);
                assert(playing[i as int] == rv);
            }
            i = i + 1;
        }
        let ghost head = rows_view(rows@);
        let ghost keys = self.chosen@;
        let mut k: usize = 0;
        proof {
            assert(playing.take(n as int) =~= playing);
            assert(keys.take(0) =~= Seq::<Seq<char>>::empty());
            assert(rows_view(rows@).skip(n as int) =~= Seq::empty());
        }
        while k < self.chosen.len()
            invariant
                keys == self.chosen@,
                k <= keys.len(),
                rows@.len() >= n,
                rows_view(rows@).take(n as int) == head,
                rows_view(rows@).skip(n as int) == absent_rows(keys.take(k as int), self.reported@),
            decreases keys.len() - k,
        {
            let key = self.chosen.get(k);
            let mut listed = false;
            let mut j: usize = 0;
            while j < self.reported.len()
                invariant
                    j <= self.reported@.len(),
                    listed == exists|t: int| 0 <= t < j && (#[trigger] self.reported@[t]).key@ == key@,
                decreases self.reported@.len() - j,
            {
                if self.reported[j].key.same(key) {
                    listed = true;
                }
                j = j + 1;
            }
            proof {
                assert(keys.take(k + 1).drop_last() =~= keys.take(k as int));
                assert(keys.take(k + 1).last() == key@);
            }
            if !listed {
                let ghost before = rows_view(rows@);
                rows.push(ApplicationRow { key: key.copy(), label: owned(key.as_str()), playing: false });
                proof {
                    assert(rows_view(rows@) =~= before.push((key@, key@, false)));
                    assert(rows_view(rows@).take(n as int) =~= before.take(n as int));
                    assert(rows_view(rows@).skip(n as int) =~= before.skip(n as int).push((key@, key@, false)));
                }
            }
            k = k + 1;
        }
        assert(keys.take(keys.len() as int) =~= keys);
        rows
    }

    /// Whether `key` is in the draft set.
    pub fn is_chosen(&self, key: &AppKey) -> (b: bool)
        requires
            self.chosen.wf(),
        ensures
            b == self.chosen.members().contains(key@),
    {
        self.chosen.contains(key)
    }

    /// Adds `key` to the draft set or takes it out.
    pub fn toggle(&mut self, key: &AppKey, chosen: bool)
        requires
            old(self).chosen.wf(),
        ensures
            final(self).chosen.wf(),
            chosen ==> final(self).chosen.members() == old(self).chosen.members().insert(key@),
            !chosen ==> final(self).chosen.members() == old(self).chosen.members().remove(key@),
            final(self).only == old(self).only,
            final(self).reported@ == old(self).reported@,
    {
        if chosen {
            self.chosen.insert(key.copy());
        } else {
            self.chosen.remove(key);
        }
    }

    /// What Done applies to the room and stores in the settings: the draft mode and the draft
    /// set's names, in identity order.
    pub fn applied(&self) -> (a: AudioApplications)
        ensures
            a.mode == (if self.only { AudioMode::Only } else { AudioMode::All }),
            a.names@.map_values(|s: String| s@) == self.chosen@,
    {
        let mut names: Vec<String> = Vec::new();
        let mut i: usize = 0;
        while i < self.chosen.len()
            invariant
                i <= self.chosen@.len(),
                names@.len() == i,
                forall|j: int| 0 <= j < i ==> #[trigger] names@[j]@ == self.chosen@[j],
            decreases self.chosen@.len() - i,
        {
            names.push(owned(self.chosen.get(i).as_str()));
            i = i + 1;
        }
        assert(names@.map_values(|s: String| s@) =~= self.chosen@);
        AudioApplications { mode: if self.only { AudioMode::Only } else { AudioMode::All }, names }
    }
}

/// Applying a choice of keys and loading what was stored restores the choice: the names
/// `applied` stores for `chosen` are, read under a platform's rule, exactly the chosen keys when
/// each key is its own identity under that rule.
pub proof fn lemma_stored_choice_is_restored(names: Seq<String>, chosen: Seq<Seq<char>>, platform: Platform)
    requires
        names.map_values(|s: String| s@) == chosen,
        forall|i: int| 0 <= i < chosen.len() ==> normalised(#[trigger] chosen[i], platform) == chosen[i],
    ensures
        name_keys_on(names, platform) == chosen.to_set(),
{
    assert forall|k: Seq<char>| #[trigger] name_keys_on(names, platform).contains(k) == chosen.to_set().contains(k) by {
        if chosen.to_set().contains(k) {
            let i = choose|i: int| 0 <= i < chosen.len() && chosen[i] == k;
            assert(names[i]@ == chosen[i]);
            assert(k == normalised(names[i]@, platform));
        }
        if name_keys_on(names, platform).contains(k) {
            let i = choose|i: int| 0 <= i < names.len() && k == normalised(#[trigger] names[i]@, platform);
            assert(names.map_values(|s: String| s@)[i] == names[i]@);
            assert(chosen[i] == names[i]@);
            assert(chosen.contains(k));
        }
    }
    assert(name_keys_on(names, platform) =~= chosen.to_set());
}

/// The one-line summary beside the button: what the room hears.
pub open spec fn summary_text(selection: AudioSelection) -> Seq<char> {
    match selection {
        AudioSelection::All => "all applications"@,
        AudioSelection::Only(keys) => if keys@.len() == 0 {
            "no applications selected"@
        } else if keys@.len() == 1 {
            decimal(1) + " application"@
        } else {
            decimal(keys@.len()) + " applications"@
        },
    }
}

/// The one-line summary beside the button: what the room hears.
pub fn selection_summary(selection: &AudioSelection) -> (text: String)
    ensures
        text@ == summary_text(*selection),
{
    match selection {
        AudioSelection::All => owned("all applications"),
        AudioSelection::Only(keys) => {
            if keys.is_empty() {
                owned("no applications selected")
            } else {
                let n = keys.len();
                let count = decimal_string(n as u64);
                if n == 1 {
                    concat(count.as_str(), " application")
                } else {
                    concat(count.as_str(), " applications")
                }
            }
        },
    }
}

} // verus!
