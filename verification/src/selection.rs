//! What a capture session carries: the identity a selection is stored under, the applications
//! the platform reports as audible, and the choice itself.
use vstd::prelude::*;
use vstd::std_specs::cmp::PartialEqSpecImpl;

use crate::text::{chars_of, push_char, str_eq, text_lt, Order, compare_str, lemma_text_lt_trichotomy, lemma_text_lt_transitive, lemma_text_lt_irreflexive};

verus! {

/// The file-name part of a path whose separators are `/`: everything after the last `/`.
pub open spec fn base_name(s: Seq<char>) -> Seq<char>
    decreases s.len(),
{
    if s.len() == 0 {
        s
    } else if s.last() == '/' {
        Seq::empty()
    } else {
        base_name(s.drop_last()).push(s.last())
    }
}

/// A file-name part holds no `/`.
pub proof fn lemma_base_name_has_no_separator(s: Seq<char>)
    ensures
        forall|i: int| 0 <= i < base_name(s).len() ==> base_name(s)[i] != '/',
    decreases s.len(),
{
    if s.len() > 0 && s.last() != '/' {
        lemma_base_name_has_no_separator(s.drop_last());
        let b = base_name(s.drop_last());
        assert forall|i: int| 0 <= i < base_name(s).len() implies base_name(s)[i] != '/' by {
            if i < b.len() {
                assert(base_name(s)[i] == b[i]);
            }
        }
    }
}

/// A text without `/` is its own file-name part.
pub proof fn lemma_base_name_of_a_base_name(t: Seq<char>)
    requires
        forall|i: int| 0 <= i < t.len() ==> t[i] != '/',
    ensures
        base_name(t) == t,
    decreases t.len(),
{
    if t.len() > 0 {
        lemma_base_name_of_a_base_name(t.drop_last());
        assert(t.drop_last().push(t.last()) =~= t);
    }
}

/// A key's text, read back as a name under the POSIX rule, is the same key: what the settings
/// file stores for an identity names that identity again when loaded.
pub proof fn lemma_key_text_names_the_same_key(name: Seq<char>)
    ensures
        normalised(normalised(name, Platform::Posix), Platform::Posix) == normalised(name, Platform::Posix),
{
    lemma_base_name_has_no_separator(name);
    lemma_base_name_of_a_base_name(base_name(name));
}

/// The file-name part of a path whose separators are `/` or `\`.
pub open spec fn windows_base_name(s: Seq<char>) -> Seq<char>
    decreases s.len(),
{
    if s.len() == 0 {
        s
    } else if s.last() == '/' || s.last() == '\\' {
        Seq::empty()
    } else {
        windows_base_name(s.drop_last()).push(s.last())
    }
}

/// What `str::to_lowercase` returns for a text: its lowercase mapping under the Unicode
/// Lowercase property, which can turn one character into several.
pub uninterp spec fn lowercase(s: Seq<char>) -> Seq<char>;

/// `str::to_lowercase`: claimed to return `lowercase` of the text and nothing more, since the
/// mapping is Unicode's and is not restated here.
#[verifier::external_body]
fn to_lowercase(s: &str) -> (r: String)
    ensures
        r@ == lowercase(s@),
{
    s.to_lowercase()
}

/// The characters after the last character of `s` that `windows` or `/` marks as a separator.
fn base_name_of(s: &str, windows: bool) -> (r: String)
    ensures
        windows ==> r@ == windows_base_name(s@),
        !windows ==> r@ == base_name(s@),
{
    let v = chars_of(s);
    let n = v.len();
    let mut j: usize = n;
    assert(v@.take(n as int) =~= v@);
    assert(v@.subrange(n as int, n as int) =~= Seq::<char>::empty());
    assert(base_name(v@) + Seq::<char>::empty() =~= base_name(v@));
    assert(windows_base_name(v@) + Seq::<char>::empty() =~= windows_base_name(v@));
    while j > 0 && !(v[j - 1] == '/' || (windows && v[j - 1] == '\\'))
        invariant
            j <= n,
            n == v@.len(),
            windows ==> windows_base_name(v@) == windows_base_name(v@.take(j as int))
                + v@.subrange(j as int, n as int),
            !windows ==> base_name(v@) == base_name(v@.take(j as int)) + v@.subrange(
                j as int,
                n as int,
            ),
        decreases j,
    {
        proof {
            let t = v@.take(j as int);
            assert(t.drop_last() =~= v@.take(j - 1));
            assert(v@.subrange(j - 1, n as int) =~= seq![t.last()] + v@.subrange(j as int, n as int));
            assert(windows_base_name(t.drop_last()).push(t.last()) + v@.subrange(j as int, n as int)
                =~= windows_base_name(v@.take(j - 1)) + v@.subrange(j - 1, n as int));
            assert(base_name(t.drop_last()).push(t.last()) + v@.subrange(j as int, n as int)
                =~= base_name(v@.take(j - 1)) + v@.subrange(j - 1, n as int));
        }
        j = j - 1;
    }
    proof {
        assert(v@.take(n as int) =~= v@);
        assert(v@.subrange(n as int, n as int) =~= Seq::<char>::empty());
        if j > 0 {
            assert(v@.take(j as int).last() == v@[j - 1]);
        }
    }
    let mut out = String::new();
    let mut k: usize = j;
    while k < n
        invariant
            j <= k <= n,
            n == v@.len(),
            out@ == v@.subrange(j as int, k as int),
        decreases n - k,
    {
        push_char(&mut out, v[k]);
        assert(v@.subrange(j as int, k + 1) =~= v@.subrange(j as int, k as int).push(v@[k as int]));
        k = k + 1;
    }
    assert(base_name(v@.take(j as int)) + out@ =~= out@ || j > 0);
    out
}

/// The platform whose file-name rules a key follows.
#[derive(Debug, Clone, Copy, PartialEq, Eq)]
pub enum Platform {
    /// `/` separates, and case matters.
    Posix,
    /// `/` and `\` both separate, and case is ignored.
    Windows,
}

/// The identity an application's key is stored under on `platform`.
pub open spec fn normalised(name: Seq<char>, platform: Platform) -> Seq<char> {
    match platform {
        Platform::Posix => base_name(name),
        Platform::Windows => lowercase(windows_base_name(name)),
    }
}

/// The identity a selection is stored under: an executable basename, lowercase on Windows.
/// Never a pid: pids do not survive a restart, and one application often owns several audio
/// streams and processes.
#[derive(Debug, Clone)]
pub struct AppKey(String);

impl View for AppKey {
    type V = Seq<char>;

    closed spec fn view(&self) -> Seq<char> {
        self.0@
    }
}

impl AppKey {
    /// From a basename or a full path, under the POSIX rule: the part after the last `/`,
    /// exactly as written.
    pub fn new(name: &str) -> (k: AppKey)
        ensures
            k@ == normalised(name@, Platform::Posix),
    {
        AppKey(base_name_of(name, false))
    }

    /// From a basename or a full path, under the Windows rule: the part after the last `/` or
    /// `\`, lowercased, so the same settings file behaves like the platform that reads it.
    pub fn new_windows(name: &str) -> (k: AppKey)
        ensures
            k@ == normalised(name@, Platform::Windows),
    {
        let base = base_name_of(name, true);
        AppKey(to_lowercase(base.as_str()))
    }

    /// From a name under the rule of `platform`.
    pub fn on(platform: Platform, name: &str) -> (k: AppKey)
        ensures
            k@ == normalised(name@, platform),
    {
        match platform {
            Platform::Posix => AppKey::new(name),
            Platform::Windows => AppKey::new_windows(name),
        }
    }

    /// The key's text.
    pub fn as_str(&self) -> (s: &str)
        ensures
            s@ == self@,
    {
        self.0.as_str()
    }

    /// A second key with the same identity.
    pub fn copy(&self) -> (k: AppKey)
        ensures
            k@ == self@,
    {
        AppKey(self.0.clone())
    }

    /// Whether two keys name the same identity.
    pub fn same(&self, other: &AppKey) -> (r: bool)
        ensures
            r == (self@ == other@),
    {
        self.0 == other.0
    }
}

impl PartialEq for AppKey {
    fn eq(&self, other: &AppKey) -> (r: bool) {
        self.same(other)
    }
}

impl PartialEqSpecImpl for AppKey {
    open spec fn obeys_eq_spec() -> bool {
        true
    }

    open spec fn eq_spec(&self, other: &AppKey) -> bool {
        self@ == other@
    }
}

impl Eq for AppKey {}

/// Whether `s` is strictly increasing in text order, so it holds no key twice.
pub open spec fn strictly_sorted(s: Seq<Seq<char>>) -> bool {
    forall|i: int, j: int| 0 <= i < j < s.len() ==> text_lt(#[trigger] s[i], #[trigger] s[j])
}

/// A set of keys, held in text order as a `BTreeSet` would iterate them.
#[derive(Debug, Clone)]
pub struct KeySet {
    keys: Vec<AppKey>,
}

impl View for KeySet {
    type V = Seq<Seq<char>>;

    closed spec fn view(&self) -> Seq<Seq<char>> {
        self.keys@.map_values(|k: AppKey| k@)
    }
}

impl KeySet {
    /// The set's well-formedness: its keys strictly increase.
    pub closed spec fn wf(&self) -> bool {
        strictly_sorted(self@)
    }

    /// The keys as a mathematical set.
    pub open spec fn members(&self) -> Set<Seq<char>> {
        self@.to_set()
    }

    /// No keys.
    pub fn new() -> (s: KeySet)
        ensures
            s.wf(),
            s@ == Seq::<Seq<char>>::empty(),
    {
        let s = KeySet { keys: Vec::new() };
        assert(s@ =~= Seq::<Seq<char>>::empty());
        s
    }

    /// The set of `keys`, each once.
    pub fn of(keys: Vec<AppKey>) -> (s: KeySet)
        ensures
            s.wf(),
            s.members() == keys@.map_values(|k: AppKey| k@).to_set(),
    {
        let mut s = KeySet::new();
        let mut i: usize = 0;
        while i < keys.len()
            invariant
                i <= keys@.len(),
                s.wf(),
                s.members() == keys@.take(i as int).map_values(|k: AppKey| k@).to_set(),
            decreases keys@.len() - i,
        {
            let ghost before = s.members();
            s.insert(keys[i].copy());
            proof {
                let next = keys@.take(i + 1).map_values(|k: AppKey| k@);
                let prev = keys@.take(i as int).map_values(|k: AppKey| k@);
                assert(next =~= prev.push(keys@[i as int]@));
                assert forall|x: Seq<char>| #[trigger] next.to_set().contains(x) == before.insert(keys@[i as int]@).contains(x) by {
                    if next.contains(x) && x != keys@[i as int]@ {
                        let j = choose|j: int| 0 <= j < next.len() && next[j] == x;
                        assert(prev[j] == x);
                    }
                    if prev.contains(x) {
                        let j = choose|j: int| 0 <= j < prev.len() && prev[j] == x;
                        assert(next[j] == x);
                    }
                    if x == keys@[i as int]@ {
                        assert(next[i as int] == x);
                    }
                }
                assert(s.members() =~= next.to_set());
            }
            i = i + 1;
        }
        assert(keys@.take(keys@.len() as int) =~= keys@);
        s
    }

    /// The number of keys.
    pub fn len(&self) -> (n: usize)
        ensures
            n == self@.len(),
    {
        self.keys.len()
    }

    /// Whether the set is empty.
    pub fn is_empty(&self) -> (b: bool)
        ensures
            b == (self@.len() == 0),
    {
        self.keys.len() == 0
    }

    /// The key at position `i` in text order.
    pub fn get(&self, i: usize) -> (k: &AppKey)
        requires
            i < self@.len(),
        ensures
            k@ == self@[i as int],
    {
        &self.keys[i]
    }

    /// Where `key` is, or where it would go to keep the order.
    fn position(&self, key: &AppKey) -> (r: (usize, bool))
        requires
            self.wf(),
        ensures
            r.0 <= self@.len(),
            r.1 ==> r.0 < self@.len() && self@[r.0 as int] == key@,
            !r.1 ==> forall|i: int| 0 <= i < r.0 ==> text_lt(#[trigger] self@[i], key@),
            !r.1 ==> forall|i: int| r.0 <= i < self@.len() ==> text_lt(key@, #[trigger] self@[i]),
    {
        let mut i: usize = 0;
        while i < self.keys.len()
            invariant
                self.wf(),
                i <= self@.len(),
                self@.len() == self.keys@.len(),
                forall|j: int| 0 <= j < i ==> text_lt(#[trigger] self@[j], key@),
            decreases self@.len() - i,
        {
            let order = compare_str(self.keys[i].as_str(), key.as_str());
            assert(self@[i as int] == self.keys@[i as int]@);
            match order {
                Order::Less => {},
                Order::Equal => {
                    return (i, true);
                },
                Order::Greater => {
                    assert forall|j: int| i <= j < self@.len() implies text_lt(key@, #[trigger] self@[j]) by {
                        if j > i {
                            lemma_text_lt_transitive(key@, self@[i as int], self@[j]);
                        }
                    }
                    return (i, false);
                },
            }
            i = i + 1;
        }
        (i, false)
    }

    /// Whether `key` is in the set.
    pub fn contains(&self, key: &AppKey) -> (b: bool)
        requires
            self.wf(),
        ensures
            b == self@.contains(key@),
    {
        let (i, found) = self.position(key);
        proof {
            if !found {
                assert forall|j: int| 0 <= j < self@.len() implies self@[j] != key@ by {
                    lemma_text_lt_irreflexive(key@);
                }
            }
        }
        found
    }

    /// Adds `key`; a key already present changes nothing. Returns whether it was added.
    pub fn insert(&mut self, key: AppKey) -> (added: bool)
        requires
            old(self).wf(),
        ensures
            final(self).wf(),
            added == !old(self)@.contains(key@),
            final(self).members() == old(self).members().insert(key@),
            final(self)@.len() == old(self)@.len() + if added { 1int } else { 0int },
    {
        let (i, found) = self.position(&key);
        if found {
            assert(self.members() =~= self.members().insert(key@));
            return false;
        }
        let ghost before = self@;
        let ghost kv = key@;
        proof {
            assert forall|j: int| 0 <= j < before.len() implies before[j] != kv by {
                lemma_text_lt_irreflexive(kv);
            }
        }
        self.keys.insert(i, key);
        assert(self@ =~= before.insert(i as int, kv));
        assert forall|x: Seq<char>| #[trigger] self@.contains(x) implies before.contains(x) || x == kv by {
            let j = choose|j: int| 0 <= j < self@.len() && self@[j] == x;
            if j < i {
                assert(before[j] == x);
            } else if j > i {
                assert(before[j - 1] == x);
            }
        }
        assert forall|x: Seq<char>| #[trigger] before.contains(x) implies self@.contains(x) by {
            let j = choose|j: int| 0 <= j < before.len() && before[j] == x;
            if j < i {
                assert(self@[j] == x);
            } else {
                assert(self@[j + 1] == x);
            }
        }
        assert(self@[i as int] == kv);
        assert(self.members() =~= before.to_set().insert(kv));
        assert(strictly_sorted(self@)) by {
            assert forall|a: int, b: int| 0 <= a < b < self@.len() implies text_lt(#[trigger] self@[a], #[trigger] self@[b]) by {
                if a < i && b < i {
                } else if a < i && b == i {
                } else if a < i && b > i {
                    assert(self@[b] == before[b - 1]);
                } else if a == i {
                    assert(self@[b] == before[b - 1]);
                } else {
                    assert(self@[a] == before[a - 1]);
                    assert(self@[b] == before[b - 1]);
                }
            }
        }
        true
    }

    /// Removes `key` if present. Returns whether it was there.
    pub fn remove(&mut self, key: &AppKey) -> (removed: bool)
        requires
            old(self).wf(),
        ensures
            final(self).wf(),
            removed == old(self)@.contains(key@),
            final(self).members() == old(self).members().remove(key@),
    {
        let (i, found) = self.position(key);
        if !found {
            proof {
                assert forall|j: int| 0 <= j < self@.len() implies self@[j] != key@ by {
                    lemma_text_lt_irreflexive(key@);
                }
                assert(self.members() =~= self.members().remove(key@));
            }
            return false;
        }
        let ghost before = self@;
        self.keys.remove(i);
        assert(self@ =~= before.remove(i as int));
        assert(strictly_sorted(self@)) by {
            assert forall|a: int, b: int| 0 <= a < b < self@.len() implies text_lt(#[trigger] self@[a], #[trigger] self@[b]) by {
                if a < i && b < i {
                } else if a < i {
                    assert(self@[b] == before[b + 1]);
                } else {
                    assert(self@[a] == before[a + 1]);
                    assert(self@[b] == before[b + 1]);
                }
            }
        }
        assert(self.members() =~= before.to_set().remove(key@)) by {
            assert forall|x: Seq<char>| self.members().contains(x) <==> before.to_set().remove(key@).contains(x) by {
                if self@.contains(x) {
                    let j = choose|j: int| 0 <= j < self@.len() && self@[j] == x;
                    if j < i {
                        assert(before[j] == x);
                        lemma_text_lt_trichotomy(before[j], before[i as int]);
                    } else {
                        assert(before[j + 1] == x);
                        lemma_text_lt_trichotomy(before[i as int], before[j + 1]);
                    }
                }
                if before.contains(x) && x != key@ {
                    let j = choose|j: int| 0 <= j < before.len() && before[j] == x;
                    if j < i {
                        assert(self@[j] == x);
                    } else {
                        assert(j != i);
                        assert(self@[j - 1] == x);
                    }
                }
            }
        }
        true
    }

    /// Whether two sets hold the same keys.
    pub fn same(&self, other: &KeySet) -> (r: bool)
        ensures
            r == (self@ == other@),
    {
        if self.keys.len() != other.keys.len() {
            return false;
        }
        let mut i: usize = 0;
        while i < self.keys.len()
            invariant
                i <= self@.len(),
                self@.len() == other@.len(),
                self@.len() == self.keys@.len(),
                other@.len() == other.keys@.len(),
                forall|j: int| 0 <= j < i ==> self@[j] == other@[j],
            decreases self@.len() - i,
        {
            assert(self@[i as int] == self.keys@[i as int]@);
            assert(other@[i as int] == other.keys@[i as int]@);
            if !self.keys[i].same(&other.keys[i]) {
                return false;
            }
            i = i + 1;
        }
        assert(self@ =~= other@);
        true
    }

    /// A second set with the same keys.
    pub fn copy(&self) -> (s: KeySet)
        ensures
            s@ == self@,
            self.wf() ==> s.wf(),
    {
        let mut keys: Vec<AppKey> = Vec::new();
        let mut i: usize = 0;
        while i < self.keys.len()
            invariant
                i <= self.keys@.len(),
                keys@.len() == i,
                forall|j: int| 0 <= j < i ==> (#[trigger] keys@[j])@ == self.keys@[j]@,
            decreases self.keys@.len() - i,
        {
            keys.push(self.keys[i].copy());
            i = i + 1;
        }
        let s = KeySet { keys };
        assert(s@ =~= self@);
        s
    }
}

impl PartialEq for KeySet {
    fn eq(&self, other: &KeySet) -> (r: bool) {
        self.same(other)
    }
}

impl PartialEqSpecImpl for KeySet {
    open spec fn obeys_eq_spec() -> bool {
        true
    }

    open spec fn eq_spec(&self, other: &KeySet) -> bool {
        self@ == other@
    }
}

impl Eq for KeySet {}

/// The key text of an optional key.
pub open spec fn key_text(key: Option<&AppKey>) -> Option<Seq<char>> {
    match key {
        Some(k) => Some(k@),
        None => None,
    }
}

/// One application the platform reports as producing audio right now.
#[derive(Debug, Clone)]
pub struct AudioSource {
    pub key: AppKey,
    /// What the user sees: the application's own name, or its identity when it has none.
    pub label: String,
}

impl AudioSource {
    /// Whether two sources have the same key and label.
    pub fn same(&self, other: &AudioSource) -> (r: bool)
        ensures
            r == (self.key@ == other.key@ && self.label@ == other.label@),
    {
        self.key.same(&other.key) && self.label == other.label
    }
}

impl PartialEq for AudioSource {
    fn eq(&self, other: &AudioSource) -> (r: bool) {
        self.same(other)
    }
}

impl PartialEqSpecImpl for AudioSource {
    open spec fn obeys_eq_spec() -> bool {
        true
    }

    open spec fn eq_spec(&self, other: &AudioSource) -> bool {
        self.key@ == other.key@ && self.label@ == other.label@
    }
}

impl Eq for AudioSource {}

/// What a capture session carries.
#[derive(Debug, Clone)]
pub enum AudioSelection {
    /// Everything the machine plays except brp itself; the default.
    All,
    /// Only these. An empty set is silence, which is what the mode says.
    Only(KeySet),
}

impl AudioSelection {
    /// The selection's well-formedness: an `Only` set is well formed.
    pub open spec fn wf(&self) -> bool {
        match self {
            AudioSelection::All => true,
            AudioSelection::Only(keys) => keys.wf(),
        }
    }

    /// Whether audio owned by the identity `key` is captured.
    pub open spec fn admits_text(&self, key: Option<Seq<char>>) -> bool {
        match self {
            AudioSelection::All => true,
            AudioSelection::Only(keys) => key is Some && keys@.contains(key->0),
        }
    }

    /// Whether audio owned by this identity is captured. A stream whose owner could not be
    /// identified has no key: it is captured under `All`, where the key is not load-bearing, and
    /// left out under `Only`, where sharing an application the user did not name is the failure
    /// this choice exists to prevent.
    pub fn admits(&self, key: Option<&AppKey>) -> (b: bool)
        requires
            self.wf(),
        ensures
            b == self.admits_text(key_text(key)),
    {
        match self {
            AudioSelection::All => true,
            AudioSelection::Only(keys) => match key {
                Some(k) => keys.contains(k),
                None => false,
            },
        }
    }

    /// A second selection with the same choice.
    pub fn copy(&self) -> (s: AudioSelection)
        ensures
            s.same_choice(self),
            self.wf() ==> s.wf(),
    {
        match self {
            AudioSelection::All => AudioSelection::All,
            AudioSelection::Only(keys) => AudioSelection::Only(keys.copy()),
        }
    }

    /// Whether two selections make the same choice.
    pub open spec fn same_choice(&self, other: &AudioSelection) -> bool {
        match (self, other) {
            (AudioSelection::All, AudioSelection::All) => true,
            (AudioSelection::Only(a), AudioSelection::Only(b)) => a@ == b@,
            _ => false,
        }
    }

    /// Whether two selections make the same choice.
    pub fn same(&self, other: &AudioSelection) -> (r: bool)
        ensures
            r == self.same_choice(other),
    {
        match (self, other) {
            (AudioSelection::All, AudioSelection::All) => true,
            (AudioSelection::Only(a), AudioSelection::Only(b)) => a.same(b),
            _ => false,
        }
    }
}

impl Default for AudioSelection {
    fn default() -> (s: AudioSelection)
        ensures
            s is All,
    {
        AudioSelection::All
    }
}

impl PartialEq for AudioSelection {
    fn eq(&self, other: &AudioSelection) -> (r: bool) {
        self.same(other)
    }
}

impl PartialEqSpecImpl for AudioSelection {
    open spec fn obeys_eq_spec() -> bool {
        true
    }

    open spec fn eq_spec(&self, other: &AudioSelection) -> bool {
        self.same_choice(other)
    }
}

impl Eq for AudioSelection {}

/// `All` admits every identity, an unknown one included; `Only` never admits an unknown
/// identity, and an empty `Only` admits nothing at all: silence.
pub proof fn lemma_only_admits_its_members(selection: AudioSelection, key: Option<Seq<char>>)
    ensures
        selection is All ==> selection.admits_text(key),
        selection is Only ==> (selection.admits_text(key) <==> key is Some && selection->Only_0.members().contains(key->0)),
        selection is Only ==> !selection.admits_text(None),
        selection is Only && selection->Only_0@.len() == 0 ==> !selection.admits_text(key),
{
    if selection is Only && key is Some {
        let keys = selection->Only_0;
        assert(keys@.contains(key->0) == keys.members().contains(key->0));
    }
}

} // verus!
