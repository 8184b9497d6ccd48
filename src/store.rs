use vstd::prelude::*;
use crate::card::{decode_spec, encode_spec, CardError, Contact, ContactView};
use crate::validate::{check_identifier, check_same_identifier, valid_id};

verus! {

/// The store operation whose file-system step failed.
#[derive(Clone, Copy, Debug, PartialEq, Eq, Structural)]
pub enum Operation {
    List,
    Write,
    Delete,
}

/// Why a store operation failed.
#[derive(Clone, Copy, Debug, PartialEq, Eq, Structural)]
pub enum StoreError {
    /// No readable, decodable card file for the identifier.
    NotFound,
    /// The addressed identifier differs from the one the contact carries.
    IdentifierConflict,
    /// The identifier cannot name a file in the store's directory.
    InvalidIdentifier,
    /// The file system refused the step of the given operation.
    IoFailure(Operation),
}

/// The directory as a map from file name to file content.
pub type DirView = Map<Seq<char>, Seq<char>>;

/// A change that an operation asks the file system to make.
pub enum FileChange {
    /// Write `text` to the file `name`, replacing what it held.
    Write { name: String, text: String },
    /// Remove the file `name`.
    Remove { name: String },
}

pub enum ChangeView {
    Write { name: Seq<char>, text: Seq<char> },
    Remove { name: Seq<char> },
}

impl View for FileChange {
    type V = ChangeView;

    open spec fn view(&self) -> ChangeView {
        match self {
            FileChange::Write { name, text } => ChangeView::Write { name: name@, text: text@ },
            FileChange::Remove { name } => ChangeView::Remove { name: name@ },
        }
    }
}

pub open spec fn planned_view(r: Result<FileChange, StoreError>) -> Result<ChangeView, StoreError> {
    match r {
        Ok(ch) => Ok(ch@),
        Err(e) => Err(e),
    }
}

pub open spec fn found_view(r: Result<Contact, StoreError>) -> Result<ContactView, StoreError> {
    match r {
        Ok(c) => Ok(c@),
        Err(e) => Err(e),
    }
}

pub open spec fn extension() -> Seq<char> {
    seq!['.', 'v', 'c', 'f']
}

/// The file that holds the contact with identifier `id`.
pub open spec fn file_name_spec(id: Seq<char>) -> Seq<char> {
    id + extension()
}

/// Index of the last `.` in `s`, or -1.
pub open spec fn last_dot(s: Seq<char>) -> int
    decreases s.len(),
{
    if s.len() == 0 {
        -1
    } else if s.last() == '.' {
        s.len() - 1
    } else {
        last_dot(s.drop_last())
    }
}

/// A file name without its extension: what precedes the last `.`, unless
/// that `.` opens the name.
pub open spec fn stem_spec(name: Seq<char>) -> Seq<char> {
    let p = last_dot(name);
    if p > 0 {
        name.take(p)
    } else {
        name
    }
}

/// The directory after a change.
pub open spec fn applied(d: DirView, ch: ChangeView) -> DirView {
    match ch {
        ChangeView::Write { name, text } => d.insert(name, text),
        ChangeView::Remove { name } => d.remove(name),
    }
}

/// The directory after an operation: a failed one changes nothing.
pub open spec fn after(d: DirView, r: Result<ChangeView, StoreError>) -> DirView {
    match r {
        Ok(ch) => applied(d, ch),
        Err(_) => d,
    }
}

/// What the file for an identifier holds, if it can be read.
pub open spec fn read_in(d: DirView, name: Seq<char>) -> Option<Seq<char>> {
    if d.contains_key(name) {
        Some(d[name])
    } else {
        None
    }
}

/// The outcome of `get`, from what reading the contact's file gave.
pub open spec fn get_spec(id: Seq<char>, content: Option<Seq<char>>) -> Result<ContactView, StoreError> {
    if !valid_id(id) {
        Err(StoreError::InvalidIdentifier)
    } else {
        match content {
            None => Err(StoreError::NotFound),
            Some(t) => match decode_spec(t, Some(id)) {
                Ok(c) => Ok(c),
                Err(_) => Err(StoreError::NotFound),
            },
        }
    }
}

/// `get` against a directory.
pub open spec fn get_in(d: DirView, id: Seq<char>) -> Result<ContactView, StoreError> {
    get_spec(id, read_in(d, file_name_spec(id)))
}

/// What `create` asks of the file system.
pub open spec fn create_spec(c: ContactView) -> Result<ChangeView, StoreError> {
    if !valid_id(c.id) {
        Err(StoreError::InvalidIdentifier)
    } else {
        Ok(ChangeView::Write { name: file_name_spec(c.id), text: encode_spec(c) })
    }
}

/// What `update` asks of the file system, given whether the file exists.
pub open spec fn update_spec(id: Seq<char>, exists: bool, c: ContactView) -> Result<ChangeView, StoreError> {
    if !valid_id(id) {
        Err(StoreError::InvalidIdentifier)
    } else if !exists {
        Err(StoreError::NotFound)
    } else if id != c.id {
        Err(StoreError::IdentifierConflict)
    } else {
        Ok(ChangeView::Write { name: file_name_spec(id), text: encode_spec(c) })
    }
}

/// `update` against a directory.
pub open spec fn update_in(d: DirView, id: Seq<char>, c: ContactView) -> Result<ChangeView, StoreError> {
    update_spec(id, d.contains_key(file_name_spec(id)), c)
}

/// What `delete` asks of the file system, given whether the file exists.
pub open spec fn delete_spec(id: Seq<char>, exists: bool) -> Result<ChangeView, StoreError> {
    if !valid_id(id) {
        Err(StoreError::InvalidIdentifier)
    } else if !exists {
        Err(StoreError::NotFound)
    } else {
        Ok(ChangeView::Remove { name: file_name_spec(id) })
    }
}

/// `delete` against a directory.
pub open spec fn delete_in(d: DirView, id: Seq<char>) -> Result<ChangeView, StoreError> {
    delete_spec(id, d.contains_key(file_name_spec(id)))
}

/// A directory entry as listing found it: its file name, and its content when
/// it could be read.
pub struct ListedFile {
    pub name: String,
    pub content: Option<String>,
}

pub open spec fn contacts_view(v: Seq<Contact>) -> Seq<ContactView> {
    v.map_values(|c: Contact| c@)
}

/// The contacts that a listing yields: each entry that was read and decodes,
/// with its file stem as identifier, in the order of the entries.
pub open spec fn listing_spec(es: Seq<ListedFile>) -> Seq<ContactView>
    decreases es.len(),
{
    if es.len() == 0 {
        Seq::empty()
    } else {
        let prev = listing_spec(es.drop_last());
        match es.last().content {
            Some(t) => match decode_spec(t@, Some(stem_spec(es.last().name@))) {
                Ok(c) => prev.push(c),
                Err(_) => prev,
            },
            None => prev,
        }
    }
}

/// The name of the file that holds the contact `id`: the identifier with the
/// `.vcf` extension.
pub fn file_name(id: &str) -> (r: String)
    ensures
        r@ == file_name_spec(id@),
{
    proof {
        reveal_strlit(".vcf");
        assert(".vcf"@ =~= extension());
    }
    let mut r = String::from_str(id);
    r.append(".vcf");
    r
}

/// How many listed files yield no contact: those that could not be read or
/// do not decode.
pub fn skipped_entries(entries: &Vec<ListedFile>) -> (r: usize)
    ensures
        r == entries@.len() - listing_spec(entries@).len(),
{
    let kept = collect_contacts(entries);
    proof {
        lemma_listing_len(entries@);
        assert(contacts_view(kept@).len() == kept@.len());
    }
    entries.len() - kept.len()
}

proof fn lemma_listing_len(es: Seq<ListedFile>)
    ensures
        listing_spec(es).len() <= es.len(),
    decreases es.len(),
{
    if es.len() > 0 {
        lemma_listing_len(es.drop_last());
    }
}

/// The stem of a file name: the identifier that a listed file stands for.
pub fn file_stem(name: &str) -> (r: String)
    ensures
        r@ == stem_spec(name@),
{
    let n = name.unicode_len();
    let mut i: usize = n;
    assert(name@.take(n as int) =~= name@);
    while i > 0 && name.get_char(i - 1) != '.'
        invariant
            n == name@.len(),
            i <= n,
            last_dot(name@) == last_dot(name@.take(i as int)),
        decreases i,
    {
        proof {
            let t = name@.take(i as int);
            assert(t.drop_last() =~= name@.take(i - 1));
        }
        i = i - 1;
    }
    proof {
        let t = name@.take(i as int);
        if i == 0 {
            assert(t.len() == 0);
        } else {
            assert(t.last() == '.');
        }
    }
    if i > 1 {
        String::from_str(name.substring_char(0, i - 1))
    } else {
        String::from_str(name)
    }
}

/// The outcome of `get` for `id`, given what reading its file gave (`None`
/// when the file is absent or unreadable). A file that does not decode counts
/// as not found.
pub fn get_outcome(id: &str, content: Option<String>) -> (r: Result<Contact, StoreError>)
    ensures
        found_view(r) == get_spec(
            id@,
            match content {
                Some(t) => Some(t@),
                None => None,
            },
        ),
{
    check_identifier(id)?;
    match content {
        None => Err(StoreError::NotFound),
        Some(text) => match Contact::decode(text.as_str(), Some(id)) {
            Ok(c) => Ok(c),
            Err(_) => Err(StoreError::NotFound),
        },
    }
}

/// What `create` writes: the contact's card text to the file named by its
/// identifier, replacing any earlier file of that name.
pub fn plan_create(contact: &Contact) -> (r: Result<FileChange, StoreError>)
    ensures
        planned_view(r) == create_spec(contact@),
{
    check_identifier(contact.id.as_str())?;
    Ok(FileChange::Write { name: file_name(contact.id.as_str()), text: contact.encode() })
}

/// What `update` writes, given whether the file for `id` exists: the whole
/// card text of `contact`, only when the file exists and `contact` carries `id`.
pub fn plan_update(id: &str, exists: bool, contact: &Contact) -> (r: Result<FileChange, StoreError>)
    ensures
        planned_view(r) == update_spec(id@, exists, contact@),
{
    check_identifier(id)?;
    if !exists {
        return Err(StoreError::NotFound);
    }
    check_same_identifier(id, contact)?;
    Ok(FileChange::Write { name: file_name(id), text: contact.encode() })
}

/// What `delete` removes, given whether the file for `id` exists.
pub fn plan_delete(id: &str, exists: bool) -> (r: Result<FileChange, StoreError>)
    ensures
        planned_view(r) == delete_spec(id@, exists),
{
    check_identifier(id)?;
    if !exists {
        return Err(StoreError::NotFound);
    }
    Ok(FileChange::Remove { name: file_name(id) })
}

/// The outcome of carrying out a change: a failed write or removal is an
/// I/O failure of that operation.
pub fn change_outcome(change: &FileChange, succeeded: bool) -> (r: Result<(), StoreError>)
    ensures
        succeeded ==> r == Ok::<(), StoreError>(()),
        !succeeded ==> r == Err::<(), StoreError>(StoreError::IoFailure(
            match change {
                FileChange::Write { .. } => Operation::Write,
                FileChange::Remove { .. } => Operation::Delete,
            },
        )),
{
    if succeeded {
        Ok(())
    } else {
        match change {
            FileChange::Write { .. } => Err(StoreError::IoFailure(Operation::Write)),
            FileChange::Remove { .. } => Err(StoreError::IoFailure(Operation::Delete)),
        }
    }
}

/// The contacts of a directory listing. Entries that could not be read or do
/// not decode are skipped; the listing fails only when the directory itself
/// could not be enumerated (`None`).
pub fn list_outcome(entries: Option<Vec<ListedFile>>) -> (r: Result<Vec<Contact>, StoreError>)
    ensures
        match entries {
            None => r == Err::<Vec<Contact>, StoreError>(StoreError::IoFailure(Operation::List)),
            Some(es) => r is Ok && contacts_view(r->Ok_0@) == listing_spec(es@),
        },
{
    match entries {
        None => Err(StoreError::IoFailure(Operation::List)),
        Some(es) => Ok(collect_contacts(&es)),
    }
}

/// The contacts that decode among listed files, each identified by its file
/// stem, in the order of the entries.
pub fn collect_contacts(entries: &Vec<ListedFile>) -> (r: Vec<Contact>)
    ensures
        contacts_view(r@) == listing_spec(entries@),
{
    let mut out: Vec<Contact> = Vec::new();
    let mut i: usize = 0;
    while i < entries.len()
        invariant
            i <= entries@.len(),
            contacts_view(out@) == listing_spec(entries@.take(i as int)),
        decreases entries@.len() - i,
    {
        let entry = &entries[i];
        proof {
            let t = entries@.take(i + 1);
            assert(t.drop_last() =~= entries@.take(i as int));
            assert(t.last() == entries@[i as int]);
        }
        match &entry.content {
            Some(text) => {
                let stem = file_stem(entry.name.as_str());
                match Contact::decode(text.as_str(), Some(stem.as_str())) {
                    Ok(c) => {
                        out.push(c);
                        proof {
                            assert(contacts_view(out@) =~= listing_spec(entries@.take(i + 1)));
                        }
                    },
                    Err(_) => {},
                }
            },
            None => {},
        }
        i = i + 1;
    }
    proof {
        assert(entries@.take(entries@.len() as int) =~= entries@);
    }
    out
}

/// The stem of a contact's file name is its identifier, so a listed file
/// decodes under the identifier it was created for.
pub proof fn lemma_stem_of_file_name(id: Seq<char>)
    requires
        valid_id(id),
    ensures
        stem_spec(file_name_spec(id)) == id,
{
    let f = file_name_spec(id);
    let f1 = f.drop_last();
    let f2 = f1.drop_last();
    let f3 = f2.drop_last();
    assert(f1 =~= id + seq!['.', 'v', 'c']);
    assert(f2 =~= id + seq!['.', 'v']);
    assert(f3 =~= id + seq!['.']);
    assert(f.last() == 'f' && f1.last() == 'c' && f2.last() == 'v' && f3.last() == '.');
    assert(last_dot(f3) == id.len());
    assert(last_dot(f2) == id.len());
    assert(last_dot(f1) == id.len());
    assert(last_dot(f) == id.len());
    assert(f.take(id.len() as int) =~= id);
}

/// Distinct identifiers name distinct files.
pub proof fn lemma_file_name_injective(a: Seq<char>, b: Seq<char>)
    requires
        file_name_spec(a) == file_name_spec(b),
    ensures
        a == b,
{
    assert(file_name_spec(a).len() == a.len() + 4);
    assert(file_name_spec(b).len() == b.len() + 4);
    assert(file_name_spec(a).take(a.len() as int) =~= a);
    assert(file_name_spec(b).take(b.len() as int) =~= b);
}

/// `get` reads only the contact's own file and changes nothing: two gets of
/// `id` between which that file did not change give the same result.
pub proof fn lemma_get_idempotent(before: DirView, later: DirView, id: Seq<char>)
    requires
        read_in(before, file_name_spec(id)) == read_in(later, file_name_spec(id)),
    ensures
        get_in(before, id) == get_in(later, id),
{
}

/// After a successful `create` of `c`, `get` of its identifier returns `c`.
pub proof fn lemma_create_then_get(d: DirView, c: ContactView)
    requires
        valid_id(c.id),
        crate::card::card_safe(c),
    ensures
        create_spec(c) is Ok,
        get_in(after(d, create_spec(c)), c.id) == Ok::<ContactView, StoreError>(c),
{
    crate::card::lemma_round_trip(c);
    let d2 = after(d, create_spec(c));
    assert(d2.contains_key(file_name_spec(c.id)));
    assert(d2[file_name_spec(c.id)] == encode_spec(c));
}

/// After a successful `delete` of `id`, `get` of `id` fails with not-found.
pub proof fn lemma_delete_then_get(d: DirView, id: Seq<char>)
    requires
        delete_in(d, id) is Ok,
    ensures
        get_in(after(d, delete_in(d, id)), id) == Err::<ContactView, StoreError>(StoreError::NotFound),
{
    assert(!after(d, delete_in(d, id)).contains_key(file_name_spec(id)));
}

/// `update` of an identifier whose file does not exist fails and creates no
/// file; for a valid identifier the failure is not-found (an invalid one is
/// refused as such before any file is looked at).
pub proof fn lemma_update_requires_existence(d: DirView, id: Seq<char>, c: ContactView)
    requires
        !d.contains_key(file_name_spec(id)),
    ensures
        update_in(d, id, c) is Err,
        valid_id(id) ==> update_in(d, id, c) == Err::<ChangeView, StoreError>(StoreError::NotFound),
        !valid_id(id) ==> update_in(d, id, c) == Err::<ChangeView, StoreError>(StoreError::InvalidIdentifier),
        after(d, update_in(d, id, c)) == d,
{
}

/// `update` of an existing contact with a record that carries another
/// identifier fails with a conflict and leaves the file as it was.
pub proof fn lemma_update_conflict(d: DirView, id: Seq<char>, c: ContactView)
    requires
        valid_id(id),
        d.contains_key(file_name_spec(id)),
        c.id != id,
    ensures
        update_in(d, id, c) == Err::<ChangeView, StoreError>(StoreError::IdentifierConflict),
        after(d, update_in(d, id, c)) == d,
{
}

/// Listing a well-formed card file beside one that does not decode yields
/// exactly the well-formed contact, whichever order the entries come in.
pub proof fn lemma_listing_skips_unparsable(good: ListedFile, bad: ListedFile, c: ContactView)
    requires
        good.content is Some,
        decode_spec(good.content->Some_0@, Some(stem_spec(good.name@))) == Ok::<ContactView, CardError>(c),
        bad.content is Some,
        decode_spec(bad.content->Some_0@, Some(stem_spec(bad.name@))) is Err,
    ensures
        listing_spec(seq![good, bad]) == seq![c],
        listing_spec(seq![bad, good]) == seq![c],
{
    let gb = seq![good, bad];
    let bg = seq![bad, good];
    assert(gb.drop_last() =~= seq![good]);
    assert(seq![good].drop_last() =~= Seq::<ListedFile>::empty());
    assert(bg.drop_last() =~= seq![bad]);
    assert(seq![bad].drop_last() =~= Seq::<ListedFile>::empty());
    assert(seq![good].last() == good);
    assert(seq![bad].last() == bad);
    assert(gb.last() == bad);
    assert(bg.last() == good);
    assert(listing_spec(Seq::<ListedFile>::empty()) == Seq::<ContactView>::empty());
    assert(listing_spec(seq![good]) =~= seq![c]);
    assert(listing_spec(seq![bad]) =~= Seq::<ContactView>::empty());
    assert(listing_spec(bg) =~= seq![c]);
}

} // verus!
