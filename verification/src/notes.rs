//! The note record and the in-memory note store.
//!
//! A store owns an ordered collection of notes; order is insertion order and
//! carries no meaning beyond being preserved by persistence. Within a store
//! ids are expected to be unique; lookups and updates act on the first note
//! carrying the requested id, deletion removes every carrier.

use vstd::prelude::*;
use vstd::string::StringExecFns;

verus! {

/// Screen position and size remembered for one note's window.
#[derive(Clone, Copy, Debug)]
pub struct WindowState {
    pub x: i32,
    pub y: i32,
    pub width: u32,
    pub height: u32,
}

/// Mathematical image of a `WindowState`.
pub ghost struct WindowStateView {
    pub x: int,
    pub y: int,
    pub width: int,
    pub height: int,
}

impl View for WindowState {
    type V = WindowStateView;

    open spec fn view(&self) -> WindowStateView {
        WindowStateView {
            x: self.x as int,
            y: self.y as int,
            width: self.width as int,
            height: self.height as int,
        }
    }
}

/// The geometry a note's window gets when none was persisted.
pub open spec fn default_window_state() -> WindowStateView {
    WindowStateView { x: 100, y: 100, width: 300, height: 400 }
}

impl Default for WindowState {
    /// The documented default geometry: position (100, 100), size 300 x 400.
    fn default() -> (r: Self)
        ensures
            r@ == default_window_state(),
    {
        WindowState { x: 100, y: 100, width: 300, height: 400 }
    }
}

/// One sticky note as it is stored and persisted.
#[derive(Clone, Debug)]
pub struct Note {
    pub id: String,
    pub title: String,
    pub content: String,
    pub created_at: String,
    pub updated_at: String,
    pub window_state: WindowState,
    pub color: String,
    pub deleted: bool,
}

/// Mathematical image of a `Note`.
pub ghost struct NoteView {
    pub id: Seq<char>,
    pub title: Seq<char>,
    pub content: Seq<char>,
    pub created_at: Seq<char>,
    pub updated_at: Seq<char>,
    pub window_state: WindowStateView,
    pub color: Seq<char>,
    pub deleted: bool,
}

impl View for Note {
    type V = NoteView;

    open spec fn view(&self) -> NoteView {
        NoteView {
            id: self.id@,
            title: self.title@,
            content: self.content@,
            created_at: self.created_at@,
            updated_at: self.updated_at@,
            window_state: self.window_state@,
            color: self.color@,
            deleted: self.deleted,
        }
    }
}

/// The display tag a note gets when none was persisted.
pub open spec fn default_color_spec() -> Seq<char> {
    "#fef3c7"@
}

/// The warm sticky-note yellow used when no color was persisted.
pub fn default_color() -> (r: String)
    ensures
        r@ == default_color_spec(),
{
    String::from_str("#fef3c7")
}

/// Relies on chrono's `Utc::now` and `DateTime::to_rfc3339`: the current
/// instant as an RFC 3339 timestamp (a date, a 'T' separator, a time and an
/// offset); nothing more can be promised of a reading of the clock.
#[verifier::external_body]
fn now_rfc3339() -> (r: String)
    ensures
        r@.len() >= 19,
        r@.contains('T'),
{
    chrono::Utc::now().to_rfc3339()
}

/// Relies on uuid's `Uuid::new_v4` and its hyphenated `Display` form: 36
/// characters in five groups separated by '-'; the value itself is random,
/// so nothing is promised about which id comes back.
#[verifier::external_body]
fn fresh_id() -> (r: String)
    ensures
        r@.len() == 36,
        r@[8] == '-' && r@[13] == '-' && r@[18] == '-' && r@[23] == '-',
{
    uuid::Uuid::new_v4().to_string()
}

impl Note {
    /// A brand-new note: a freshly generated id, the default title, empty
    /// content, both timestamps set to the same present instant, default
    /// window geometry and color, and the soft-delete flag cleared.
    pub fn new() -> (r: Note)
        ensures
            r@.id.len() == 36,
            r@.title == "新しいノート"@,
            r@.content.len() == 0,
            r@.created_at == r@.updated_at,
            r@.created_at.len() >= 19,
            r@.created_at.contains('T'),
            r@.window_state == default_window_state(),
            r@.color == default_color_spec(),
            !r@.deleted,
    {
        let now = now_rfc3339();
        Note {
            id: fresh_id(),
            title: String::from_str("新しいノート"),
            content: String::new(),
            created_at: now.clone(),
            updated_at: now,
            window_state: WindowState::default(),
            color: default_color(),
            deleted: false,
        }
    }
}

/// The in-memory store: an ordered collection of notes.
pub struct NotesStore {
    pub notes: Vec<Note>,
}

/// The mathematical image of a collection of notes.
pub open spec fn notes_view(v: Seq<Note>) -> Seq<NoteView> {
    v.map_values(|n: Note| n@)
}

impl View for NotesStore {
    type V = Seq<NoteView>;

    open spec fn view(&self) -> Seq<NoteView> {
        notes_view(self.notes@)
    }
}

/// The first note of `s` that carries `id`, if any.
pub open spec fn first_with_id(s: Seq<NoteView>, id: Seq<char>) -> Option<NoteView>
    decreases s.len(),
{
    if s.len() == 0 {
        None
    } else if s[0].id == id {
        Some(s[0])
    } else {
        first_with_id(s.drop_first(), id)
    }
}

/// Whether some note of `s` carries `id`.
pub open spec fn has_id(s: Seq<NoteView>, id: Seq<char>) -> bool {
    exists|i: int| 0 <= i < s.len() && s[i].id == id
}

/// `s` with its first note carrying `n.id` replaced wholesale by `n`;
/// `s` itself when no note carries that id.
pub open spec fn replace_first(s: Seq<NoteView>, n: NoteView) -> Seq<NoteView>
    decreases s.len(),
{
    if s.len() == 0 {
        s
    } else if s[0].id == n.id {
        s.update(0, n)
    } else {
        seq![s[0]] + replace_first(s.drop_first(), n)
    }
}

/// `s` without every note that carries `id`.
pub open spec fn remove_id(s: Seq<NoteView>, id: Seq<char>) -> Seq<NoteView>
    decreases s.len(),
{
    if s.len() == 0 {
        s
    } else {
        let rest = remove_id(s.drop_last(), id);
        if s.last().id == id {
            rest
        } else {
            rest.push(s.last())
        }
    }
}

/// `s` with the first note carrying `id` given the window geometry `w`;
/// `s` itself when no note carries the id.
pub open spec fn set_window_first(s: Seq<NoteView>, id: Seq<char>, w: WindowStateView) -> Seq<
    NoteView,
>
    decreases s.len(),
{
    if s.len() == 0 {
        s
    } else if s[0].id == id {
        s.update(0, NoteView { window_state: w, ..s[0] })
    } else {
        seq![s[0]] + set_window_first(s.drop_first(), id, w)
    }
}

/// No two notes of `s` share an id (the store's resting invariant).
pub open spec fn unique_ids(s: Seq<NoteView>) -> bool {
    forall|i: int, j: int| 0 <= i < j < s.len() ==> s[i].id != s[j].id
}

impl Default for NotesStore {
    /// An empty store.
    fn default() -> (r: Self)
        ensures
            r@ == Seq::<NoteView>::empty(),
    {
        let r = NotesStore { notes: Vec::new() };
        proof {
            assert(r@ =~= Seq::<NoteView>::empty());
        }
        r
    }
}

impl NotesStore {
    /// Appends `note` to the collection. No uniqueness check is made: the
    /// caller is expected to supply a freshly generated id.
    pub fn add_note(&mut self, note: Note)
        ensures
            final(self)@ == old(self)@.push(note@),
    {
        let ghost nv = note@;
        self.notes.push(note);
        proof {
            assert(self@ =~= old(self)@.push(nv));
        }
    }

    /// The first note carrying `id`, or nothing.
    pub fn get_note(&self, id: &str) -> (r: Option<&Note>)
        ensures
            match r {
                Some(n) => first_with_id(self@, id@) == Some(n@),
                None => first_with_id(self@, id@) is None,
            },
    {
        let key = String::from_str(id);
        let mut i: usize = 0;
        proof {
            assert(self@.skip(0) =~= self@);
        }
        while i < self.notes.len()
            invariant
                0 <= i <= self.notes.len(),
                key@ == id@,
                first_with_id(self@, id@) == first_with_id(self@.skip(i as int), id@),
                forall|j: int| 0 <= j < i ==> self@[j].id != id@,
            decreases self.notes.len() - i,
        {
            if self.notes[i].id == key {
                proof {
                    assert(self@.skip(i as int)[0] == self@[i as int]);
                }
                return Some(&self.notes[i]);
            }
            proof {
                assert(self@.skip(i as int).drop_first() =~= self@.skip(i as int + 1));
            }
            i += 1;
        }
        proof {
            assert(self@.skip(i as int).len() == 0);
        }
        None
    }

    /// Replaces the first note carrying `note.id` wholesale by `note`;
    /// does nothing when no note carries that id (no append, no error).
    pub fn update_note(&mut self, note: Note)
        ensures
            final(self)@ == replace_first(old(self)@, note@),
    {
        let ghost s = old(self)@;
        let ghost nv = note@;
        let mut i: usize = 0;
        while i < self.notes.len()
            invariant
                0 <= i <= self.notes.len(),
                self@ == s,
                s == old(self)@,
                nv == note@,
                forall|j: int| 0 <= j < i ==> s[j].id != nv.id,
            decreases self.notes.len() - i,
        {
            if self.notes[i].id == note.id {
                proof {
                    assert(self@[i as int] == self.notes@[i as int]@);
                    assert(s[i as int].id == nv.id);
                    lemma_replace_first_at(s, nv, i as int);
                }
                self.notes.remove(i);
                self.notes.insert(i, note);
                proof {
                    assert(self@ =~= s.update(i as int, nv));
                }
                return;
            }
            proof {
                assert(self@[i as int] == self.notes@[i as int]@);
            }
            i += 1;
        }
        proof {
            lemma_replace_first_absent(s, nv);
        }
    }

    /// Gives the first note carrying `id` the window geometry; does
    /// nothing when no note carries the id.
    pub fn update_window_state(&mut self, id: &str, x: i32, y: i32, width: u32, height: u32)
        ensures
            final(self)@ == set_window_first(
                old(self)@,
                id@,
                WindowStateView {
                    x: x as int,
                    y: y as int,
                    width: width as int,
                    height: height as int,
                },
            ),
    {
        let key = String::from_str(id);
        let ghost s = old(self)@;
        let ghost wv = WindowStateView {
            x: x as int,
            y: y as int,
            width: width as int,
            height: height as int,
        };
        let mut i: usize = 0;
        while i < self.notes.len()
            invariant
                0 <= i <= self.notes.len(),
                self@ == s,
                s == old(self)@,
                key@ == id@,
                wv == (WindowStateView {
                    x: x as int,
                    y: y as int,
                    width: width as int,
                    height: height as int,
                }),
                forall|j: int| 0 <= j < i ==> s[j].id != id@,
            decreases self.notes.len() - i,
        {
            if self.notes[i].id == key {
                proof {
                    assert(self@[i as int] == self.notes@[i as int]@);
                    assert(s[i as int].id == id@);
                    lemma_set_window_first_at(s, id@, wv, i as int);
                }
                let mut note = self.notes.remove(i);
                note.window_state = WindowState { x, y, width, height };
                self.notes.insert(i, note);
                proof {
                    assert(self@ =~= s.update(
                        i as int,
                        NoteView { window_state: wv, ..s[i as int] },
                    ));
                }
                return;
            }
            proof {
                assert(self@[i as int] == self.notes@[i as int]@);
            }
            i += 1;
        }
        proof {
            lemma_set_window_first_absent(s, id@, wv);
        }
    }

    /// Removes every note carrying `id`; does nothing when none does.
    pub fn delete_note(&mut self, id: &str)
        ensures
            final(self)@ == remove_id(old(self)@, id@),
    {
        let key = String::from_str(id);
        let ghost orig = old(self)@;
        let mut i: usize = 0;
        let ghost mut k: int = 0;
        while i < self.notes.len()
            invariant
                0 <= k <= orig.len(),
                key@ == id@,
                orig == old(self)@,
                self@ == remove_id(orig.take(k), id@) + orig.skip(k),
                i == remove_id(orig.take(k), id@).len(),
            decreases self.notes.len() - i,
        {
            proof {
                assert(self@.len() == i + orig.len() - k);
                assert(k < orig.len());
                assert(self@[i as int] == orig.skip(k)[0]);
                assert(orig.skip(k)[0] == orig[k]);
                assert(self@[i as int] == self.notes@[i as int]@);
                assert(orig.take(k + 1).drop_last() =~= orig.take(k));
                assert(orig.take(k + 1).last() == orig[k]);
            }
            if self.notes[i].id == key {
                proof {
                    assert(orig[k].id == id@);
                    assert(remove_id(orig.take(k + 1), id@) == remove_id(orig.take(k), id@));
                }
                let ghost cur = self@;
                self.notes.remove(i);
                proof {
                    assert(self@ =~= cur.remove(i as int));
                    assert(cur.remove(i as int) =~= remove_id(orig.take(k), id@) + orig.skip(
                        k + 1));
                    assert(self@ == remove_id(orig.take(k + 1), id@) + orig.skip(k + 1));
                }
            } else {
                proof {
                    assert(orig[k].id != id@);
                    assert(remove_id(orig.take(k + 1), id@) == remove_id(orig.take(k), id@).push(
                        orig[k]));
                    assert(orig.skip(k) =~= seq![orig[k]] + orig.skip(k + 1));
                    assert(remove_id(orig.take(k), id@).push(orig[k]) + orig.skip(k + 1)
                        =~= remove_id(orig.take(k), id@) + orig.skip(k));
                    assert(self@ == remove_id(orig.take(k + 1), id@) + orig.skip(k + 1));
                }
                i += 1;
            }
            proof {
                k = k + 1;
            }
        }
        proof {
            assert(orig.skip(k).len() == 0);
            assert(orig.take(k) =~= orig);
            assert(self@ =~= remove_id(orig, id@));
        }
    }
}

/// When the first carrier of `id` stands at `i`, the geometry update acts
/// exactly at `i` and nowhere else.
proof fn lemma_set_window_first_at(s: Seq<NoteView>, id: Seq<char>, w: WindowStateView, i: int)
    requires
        0 <= i < s.len(),
        s[i].id == id,
        forall|j: int| 0 <= j < i ==> s[j].id != id,
    ensures
        set_window_first(s, id, w) == s.update(i, NoteView { window_state: w, ..s[i] }),
    decreases i,
{
    if i == 0 {
    } else {
        assert(s[0].id != id);
        assert(forall|j: int| 0 <= j < i - 1 ==> s.drop_first()[j].id != id);
        lemma_set_window_first_at(s.drop_first(), id, w, i - 1);
        assert(seq![s[0]] + s.drop_first().update(
            i - 1,
            NoteView { window_state: w, ..s.drop_first()[i - 1] },
        ) =~= s.update(i, NoteView { window_state: w, ..s[i] }));
    }
}

/// When no note carries `id`, the geometry update changes nothing.
proof fn lemma_set_window_first_absent(s: Seq<NoteView>, id: Seq<char>, w: WindowStateView)
    requires
        forall|j: int| 0 <= j < s.len() ==> s[j].id != id,
    ensures
        set_window_first(s, id, w) == s,
    decreases s.len(),
{
    if s.len() > 0 {
        assert(forall|j: int| 0 <= j < s.len() - 1 ==> s.drop_first()[j].id != id);
        lemma_set_window_first_absent(s.drop_first(), id, w);
        assert(seq![s[0]] + s.drop_first() =~= s);
    }
}

/// When the first carrier of `n.id` stands at `i`, replacement acts exactly
/// at `i` and nowhere else.
proof fn lemma_replace_first_at(s: Seq<NoteView>, n: NoteView, i: int)
    requires
        0 <= i < s.len(),
        s[i].id == n.id,
        forall|j: int| 0 <= j < i ==> s[j].id != n.id,
    ensures
        replace_first(s, n) == s.update(i, n),
    decreases i,
{
    if i == 0 {
        assert(replace_first(s, n) == s.update(0, n));
    } else {
        assert(s[0].id != n.id);
        assert(forall|j: int| 0 <= j < i - 1 ==> s.drop_first()[j].id != n.id);
        lemma_replace_first_at(s.drop_first(), n, i - 1);
        assert(seq![s[0]] + s.drop_first().update(i - 1, n) =~= s.update(i, n));
    }
}

/// When no note carries `n.id`, replacement changes nothing.
proof fn lemma_replace_first_absent(s: Seq<NoteView>, n: NoteView)
    requires
        forall|j: int| 0 <= j < s.len() ==> s[j].id != n.id,
    ensures
        replace_first(s, n) == s,
    decreases s.len(),
{
    if s.len() > 0 {
        assert(forall|j: int| 0 <= j < s.len() - 1 ==> s.drop_first()[j].id != n.id);
        lemma_replace_first_absent(s.drop_first(), n);
        assert(seq![s[0]] + s.drop_first() =~= s);
    }
}

/// Some note of `s` carries `id` exactly when a first carrier exists: an
/// index whose note carries the id while every earlier one does not.
proof fn lemma_first_index(s: Seq<NoteView>, id: Seq<char>)
    requires
        has_id(s, id),
    ensures
        exists|i: int|
            0 <= i < s.len() && s[i].id == id && (forall|j: int| 0 <= j < i ==> s[j].id != id),
    decreases s.len(),
{
    if s[0].id == id {
        assert(0 <= 0 < s.len() && s[0].id == id && (forall|j: int| 0 <= j < 0 ==> s[j].id != id));
    } else {
        let w = choose|i: int| 0 <= i < s.len() && s[i].id == id;
        assert(s.drop_first()[w - 1].id == id);
        assert(has_id(s.drop_first(), id));
        lemma_first_index(s.drop_first(), id);
        let i0 = choose|i: int|
            0 <= i < s.drop_first().len() && s.drop_first()[i].id == id && (forall|j: int|
                0 <= j < i ==> s.drop_first()[j].id != id);
        assert(s[i0 + 1].id == id);
        assert(forall|j: int| 0 <= j < i0 + 1 ==> s[j].id != id) by {
            assert(forall|j: int| 1 <= j < i0 + 1 ==> s[j] == s.drop_first()[j - 1]);
        }
    }
}

/// The store's lookup is sound: a found note carries the requested id and
/// belongs to the store; nothing is found exactly when no note carries it.
pub proof fn lemma_get_note_props(s: Seq<NoteView>, id: Seq<char>)
    ensures
        first_with_id(s, id) matches Some(m) ==> m.id == id && s.contains(m),
        first_with_id(s, id) is None <==> !has_id(s, id),
    decreases s.len(),
{
    if s.len() == 0 {
    } else if s[0].id == id {
        assert(s.contains(s[0]));
        assert(has_id(s, id));
    } else {
        lemma_get_note_props(s.drop_first(), id);
        match first_with_id(s.drop_first(), id) {
            Some(m) => {
                assert(s.drop_first().contains(m));
                let w = choose|i: int| 0 <= i < s.drop_first().len() && s.drop_first()[i] == m;
                assert(s[w + 1] == m);
                assert(s.contains(m));
                assert(s.drop_first()[w].id == id);
                assert(has_id(s, id)) by {
                    assert(s[w + 1].id == id);
                }
            },
            None => {
                assert(!has_id(s.drop_first(), id));
                if has_id(s, id) {
                    let w = choose|i: int| 0 <= i < s.len() && s[i].id == id;
                    assert(w != 0);
                    assert(s.drop_first()[w - 1].id == id);
                    assert(false);
                }
            },
        }
    }
}

/// Adding a note grows the store by exactly one, and a lookup of the added
/// id then finds a note carrying that id.
pub proof fn lemma_add_then_get(s: Seq<NoteView>, n: NoteView)
    ensures
        s.push(n).len() == s.len() + 1,
        first_with_id(s.push(n), n.id) matches Some(m) && m.id == n.id,
    decreases s.len(),
{
    if s.len() == 0 {
        assert(s.push(n)[0] == n);
        assert(first_with_id(s.push(n), n.id) == Some(n));
    } else if s[0].id == n.id {
        assert(s.push(n)[0] == s[0]);
        assert(first_with_id(s.push(n), n.id) == Some(s.push(n)[0]));
    } else {
        assert(s.push(n)[0] == s[0]);
        assert(s.push(n).drop_first() =~= s.drop_first().push(n));
        lemma_add_then_get(s.drop_first(), n);
    }
}

/// Updating keeps the collection length; an update under an unknown id
/// leaves the collection unchanged, one under a present id rewrites exactly
/// the first carrier with the supplied note.
pub proof fn lemma_update_note_props(s: Seq<NoteView>, n: NoteView)
    ensures
        replace_first(s, n).len() == s.len(),
        !has_id(s, n.id) ==> replace_first(s, n) == s,
        has_id(s, n.id) ==> exists|i: int|
            0 <= i < s.len() && s[i].id == n.id && replace_first(s, n) == s.update(i, n),
{
    if has_id(s, n.id) {
        lemma_first_index(s, n.id);
        let i = choose|i: int|
            0 <= i < s.len() && s[i].id == n.id && (forall|j: int| 0 <= j < i ==> s[j].id != n.id);
        lemma_replace_first_at(s, n, i);
        assert(replace_first(s, n) == s.update(i, n));
    } else {
        assert(forall|j: int| 0 <= j < s.len() ==> s[j].id != n.id);
        lemma_replace_first_absent(s, n);
    }
}

/// After a deletion no note carries the id any more; deleting an unknown id
/// changes nothing; when ids are unique, deleting a present id shrinks the
/// store by exactly one.
pub proof fn lemma_delete_note_props(s: Seq<NoteView>, id: Seq<char>)
    ensures
        !has_id(remove_id(s, id), id),
        !has_id(s, id) ==> remove_id(s, id) == s,
        unique_ids(s) && has_id(s, id) ==> remove_id(s, id).len() == s.len() - 1,
    decreases s.len(),
{
    if s.len() == 0 {
    } else {
        let d = s.drop_last();
        lemma_delete_note_props(d, id);
        assert(forall|j: int| 0 <= j < d.len() ==> d[j] == s[j]);
        let rest = remove_id(d, id);
        if s.last().id == id {
            assert(remove_id(s, id) == rest);
            if has_id(d, id) {
                if unique_ids(s) {
                    let w = choose|i: int| 0 <= i < d.len() && d[i].id == id;
                    assert(s[w].id == s[s.len() - 1].id);
                    assert(false);
                }
            } else {
                assert(rest == d);
                assert(unique_ids(s) && has_id(s, id) ==> remove_id(s, id).len() == s.len() - 1);
            }
            assert(has_id(s, id)) by {
                assert(s[s.len() - 1].id == id);
            }
        } else {
            assert(remove_id(s, id) == rest.push(s.last()));
            assert(!has_id(rest.push(s.last()), id)) by {
                if has_id(rest.push(s.last()), id) {
                    let w = choose|i: int|
                        0 <= i < rest.push(s.last()).len() && rest.push(s.last())[i].id == id;
                    if w < rest.len() {
                        assert(has_id(rest, id));
                    }
                }
            }
            if !has_id(s, id) {
                assert(!has_id(d, id)) by {
                    if has_id(d, id) {
                        let w = choose|i: int| 0 <= i < d.len() && d[i].id == id;
                        assert(s[w].id == id);
                    }
                }
                assert(rest.push(s.last()) =~= s);
            }
            if unique_ids(s) && has_id(s, id) {
                assert(has_id(d, id)) by {
                    let w = choose|i: int| 0 <= i < s.len() && s[i].id == id;
                    assert(w < s.len() - 1);
                    assert(d[w].id == id);
                }
                assert(unique_ids(d));
            }
        }
    }
}

/// Every note of `remove_id(s, id)` stands somewhere in `s`.
proof fn lemma_remove_id_elems(s: Seq<NoteView>, id: Seq<char>)
    ensures
        forall|i: int|
            0 <= i < remove_id(s, id).len() ==> exists|j: int|
                0 <= j < s.len() && #[trigger] remove_id(s, id)[i] == s[j],
    decreases s.len(),
{
    if s.len() > 0 {
        let d = s.drop_last();
        lemma_remove_id_elems(d, id);
        let rest = remove_id(d, id);
        assert(forall|j: int| 0 <= j < d.len() ==> d[j] == s[j]);
        if s.last().id == id {
            assert(forall|i: int|
                0 <= i < remove_id(s, id).len() ==> exists|j: int|
                    0 <= j < s.len() && #[trigger] remove_id(s, id)[i] == s[j]) by {
                assert(forall|i: int|
                    0 <= i < rest.len() ==> exists|j: int| 0 <= j < d.len() && #[trigger] rest[i]
                        == d[j]);
            }
        } else {
            assert(forall|i: int|
                0 <= i < remove_id(s, id).len() ==> exists|j: int|
                    0 <= j < s.len() && #[trigger] remove_id(s, id)[i] == s[j]) by {
                assert(forall|i: int| 0 <= i < rest.len() ==> rest.push(s.last())[i] == rest[i]);
                assert(rest.push(s.last())[rest.len() as int] == s[s.len() - 1]);
            }
        }
    }
}

/// The store's resting invariant — no two notes share an id — is kept by
/// every operation: adding a note under a fresh id, replacing a note,
/// updating a window geometry, and deleting by id.
pub proof fn lemma_crud_preserves_unique_ids(
    s: Seq<NoteView>,
    n: NoteView,
    id: Seq<char>,
    w: WindowStateView,
)
    ensures
        unique_ids(s) && !has_id(s, n.id) ==> unique_ids(s.push(n)),
        unique_ids(s) ==> unique_ids(replace_first(s, n)),
        unique_ids(s) ==> unique_ids(set_window_first(s, id, w)),
        unique_ids(s) ==> unique_ids(remove_id(s, id)),
{
    if unique_ids(s) && !has_id(s, n.id) {
        assert(unique_ids(s.push(n))) by {
            assert(forall|i: int| 0 <= i < s.len() ==> s.push(n)[i] == s[i]);
            assert(s.push(n)[s.len() as int] == n);
        }
    }
    if unique_ids(s) {
        lemma_update_note_props(s, n);
        if has_id(s, n.id) {
            let i = choose|i: int|
                0 <= i < s.len() && s[i].id == n.id && replace_first(s, n) == s.update(i, n);
            assert(unique_ids(s.update(i, n))) by {
                assert(forall|j: int|
                    0 <= j < s.len() && j != i ==> s.update(i, n)[j] == s[j]);
                assert(s.update(i, n)[i] == n);
                assert(n.id == s[i].id);
            }
        }
    }
    if unique_ids(s) {
        if has_id(s, id) {
            lemma_first_index(s, id);
            let i = choose|i: int|
                0 <= i < s.len() && s[i].id == id && (forall|j: int|
                    0 <= j < i ==> s[j].id != id);
            lemma_set_window_first_at(s, id, w, i);
            let m = NoteView { window_state: w, ..s[i] };
            assert(unique_ids(s.update(i, m))) by {
                assert(forall|j: int|
                    0 <= j < s.len() && j != i ==> s.update(i, m)[j] == s[j]);
                assert(s.update(i, m)[i] == m);
                assert(m.id == s[i].id);
            }
        } else {
            assert(forall|j: int| 0 <= j < s.len() ==> s[j].id != id);
            lemma_set_window_first_absent(s, id, w);
        }
    }
    if unique_ids(s) {
        lemma_remove_unique(s, id);
    }
}

/// Deleting by id keeps the remaining ids unique.
proof fn lemma_remove_unique(s: Seq<NoteView>, id: Seq<char>)
    requires
        unique_ids(s),
    ensures
        unique_ids(remove_id(s, id)),
    decreases s.len(),
{
    if s.len() > 0 {
        let d = s.drop_last();
        assert(forall|j: int| 0 <= j < d.len() ==> d[j] == s[j]);
        assert(unique_ids(d));
        lemma_remove_unique(d, id);
        let rest = remove_id(d, id);
        if s.last().id == id {
        } else {
            lemma_remove_id_elems(d, id);
            assert(unique_ids(rest.push(s.last()))) by {
                assert(forall|i: int| 0 <= i < rest.len() ==> rest.push(s.last())[i] == rest[i]);
                assert(rest.push(s.last())[rest.len() as int] == s.last());
                assert(forall|i: int| 0 <= i < rest.len() ==> rest[i].id != s.last().id) by {
                    assert(forall|i: int|
                        0 <= i < rest.len() ==> exists|j: int|
                            0 <= j < d.len() && #[trigger] rest[i] == d[j]);
                    assert(forall|j: int| 0 <= j < d.len() ==> d[j].id != s.last().id) by {
                        assert(forall|j: int| 0 <= j < d.len() ==> d[j] == s[j]);
                        assert(s.last() == s[s.len() - 1]);
                    }
                }
            }
        }
    }
}

} // verus!
