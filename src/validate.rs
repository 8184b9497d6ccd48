use vstd::prelude::*;
use crate::card::Contact;
use crate::store::StoreError;

verus! {

/// An identifier that names exactly one file in the store's directory: not
/// empty, not one of the reserved names `.` and `..`, and free of path
/// separators and NUL.
pub open spec fn valid_id(id: Seq<char>) -> bool {
    &&& id.len() > 0
    &&& id != seq!['.']
    &&& id != seq!['.', '.']
    &&& forall|i: int| 0 <= i < id.len() ==> id[i] != '/' && id[i] != '\\' && id[i] != '\0'
}

/// Whether two texts are the same.
pub fn same_text(a: &str, b: &str) -> (r: bool)
    ensures
        r == (a@ == b@),
{
    let n = a.unicode_len();
    if n != b.unicode_len() {
        return false;
    }
    let mut i: usize = 0;
    while i < n
        invariant
            n == a@.len(),
            n == b@.len(),
            i <= n,
            forall|j: int| 0 <= j < i ==> a@[j] == b@[j],
        decreases n - i,
    {
        if a.get_char(i) != b.get_char(i) {
            return false;
        }
        i = i + 1;
    }
    proof {
        assert(a@ =~= b@);
    }
    true
}

/// Accepts an identifier that is safe to turn into a file name.
pub fn check_identifier(id: &str) -> (r: Result<(), StoreError>)
    ensures
        r == (if valid_id(id@) {
            Ok::<(), StoreError>(())
        } else {
            Err(StoreError::InvalidIdentifier)
        }),
{
    let n = id.unicode_len();
    if n == 0 {
        return Err(StoreError::InvalidIdentifier);
    }
    if n <= 2 && id.get_char(0) == '.' && (n == 1 || id.get_char(1) == '.') {
        proof {
            if n == 1 {
                assert(id@ =~= seq!['.']);
            } else {
                assert(id@ =~= seq!['.', '.']);
            }
        }
        return Err(StoreError::InvalidIdentifier);
    }
    let mut i: usize = 0;
    while i < n
        invariant
            n == id@.len(),
            n > 0,
            id@ != seq!['.'],
            id@ != seq!['.', '.'],
            i <= n,
            forall|j: int| 0 <= j < i ==> id@[j] != '/' && id@[j] != '\\' && id@[j] != '\0',
        decreases n - i,
    {
        let ch = id.get_char(i);
        if ch == '/' || ch == '\\' || ch == '\0' {
            return Err(StoreError::InvalidIdentifier);
        }
        i = i + 1;
    }
    Ok(())
}

/// Accepts a contact addressed by `target` only when it carries that same
/// identifier; a different one is a conflict, never silently preferred.
pub fn check_same_identifier(target: &str, contact: &Contact) -> (r: Result<(), StoreError>)
    ensures
        r == (if target@ == contact.id@ {
            Ok::<(), StoreError>(())
        } else {
            Err(StoreError::IdentifierConflict)
        }),
{
    if same_text(target, contact.id.as_str()) {
        Ok(())
    } else {
        Err(StoreError::IdentifierConflict)
    }
}

} // verus!
