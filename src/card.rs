use vstd::prelude::*;

verus! {

/// A contact record: the identifier keys the record, the other fields may be empty.
#[derive(Clone, Debug, PartialEq, Eq, Default)]
pub struct Contact {
    pub id: String,
    pub name: String,
    pub email: String,
    pub phone: String,
}

/// The mathematical value of a [`Contact`]: its four fields as character sequences.
pub struct ContactView {
    pub id: Seq<char>,
    pub name: Seq<char>,
    pub email: Seq<char>,
    pub phone: Seq<char>,
}

impl View for Contact {
    type V = ContactView;

    open spec fn view(&self) -> ContactView {
        ContactView { id: self.id@, name: self.name@, email: self.email@, phone: self.phone@ }
    }
}

/// Why card text could not be decoded into a contact.
#[derive(Clone, Copy, Debug, PartialEq, Eq, Structural)]
pub enum CardError {
    /// No recognised field line at all.
    EmptyInput,
    /// Fields were found, but no identifier line and no identifier from the caller.
    MissingIdentifier,
}

pub open spec fn begin_line() -> Seq<char> {
    seq!['B', 'E', 'G', 'I', 'N', ':', 'V', 'C', 'A', 'R', 'D']
}

pub open spec fn version_line() -> Seq<char> {
    seq!['V', 'E', 'R', 'S', 'I', 'O', 'N', ':', '4', '.', '0']
}

pub open spec fn end_line() -> Seq<char> {
    seq!['E', 'N', 'D', ':', 'V', 'C', 'A', 'R', 'D']
}

pub open spec fn id_key() -> Seq<char> {
    seq!['I', 'D', ':']
}

pub open spec fn name_key() -> Seq<char> {
    seq!['F', 'N', ':']
}

pub open spec fn email_key() -> Seq<char> {
    seq!['E', 'M', 'A', 'I', 'L', ':']
}

pub open spec fn phone_key() -> Seq<char> {
    seq!['T', 'E', 'L', ':']
}

/// The lines of a card, in the order in which they are written.
pub open spec fn card_lines_of(c: ContactView) -> Seq<Seq<char>> {
    seq![
        begin_line(),
        version_line(),
        id_key() + c.id,
        name_key() + c.name,
        email_key() + c.email,
        phone_key() + c.phone,
        end_line(),
    ]
}

/// Each line followed by a newline.
pub open spec fn join_lines(ls: Seq<Seq<char>>) -> Seq<char>
    decreases ls.len(),
{
    if ls.len() == 0 {
        Seq::empty()
    } else {
        ls[0] + seq!['\n'] + join_lines(ls.drop_first())
    }
}

/// The card text of a contact.
pub open spec fn encode_spec(c: ContactView) -> Seq<char> {
    join_lines(card_lines_of(c))
}


/// Length of the first line of `s`: the index of its first newline, or its length.
pub open spec fn first_line_len(s: Seq<char>) -> nat
    decreases s.len(),
{
    if s.len() == 0 {
        0
    } else if s[0] == '\n' {
        0
    } else {
        1 + first_line_len(s.drop_first())
    }
}

/// A line whose terminator was `\r\n` loses its carriage return.
pub open spec fn trim_cr(l: Seq<char>) -> Seq<char> {
    if l.len() > 0 && l.last() == '\r' {
        l.drop_last()
    } else {
        l
    }
}

/// The lines of a text: split at `\n` or `\r\n`; the last line needs no terminator.
pub open spec fn text_lines(s: Seq<char>) -> Seq<Seq<char>>
    decreases s.len(),
{
    if s.len() == 0 {
        Seq::empty()
    } else {
        let k = first_line_len(s);
        if k < s.len() {
            seq![trim_cr(s.take(k as int))] + text_lines(s.skip((k + 1) as int))
        } else {
            seq![s]
        }
    }
}

pub open spec fn has_prefix(l: Seq<char>, key: Seq<char>) -> bool {
    key.len() <= l.len() && l.take(key.len() as int) == key
}

/// The value of the last line that starts with `key`: what follows the key.
pub open spec fn field_of(ls: Seq<Seq<char>>, key: Seq<char>) -> Option<Seq<char>>
    decreases ls.len(),
{
    if ls.len() == 0 {
        None
    } else {
        match field_of(ls.drop_first(), key) {
            Some(v) => Some(v),
            None => if has_prefix(ls[0], key) {
                Some(ls[0].skip(key.len() as int))
            } else {
                None
            },
        }
    }
}

pub open spec fn or_empty(o: Option<Seq<char>>) -> Seq<char> {
    match o {
        Some(v) => v,
        None => Seq::empty(),
    }
}

/// What decoding card text gives, with an optional identifier from the caller
/// that takes precedence over an identifier line.
pub open spec fn decode_spec(text: Seq<char>, external_id: Option<Seq<char>>) -> Result<ContactView, CardError> {
    let ls = text_lines(text);
    let id = field_of(ls, id_key());
    let name = field_of(ls, name_key());
    let email = field_of(ls, email_key());
    let phone = field_of(ls, phone_key());
    if id is None && name is None && email is None && phone is None {
        Err(CardError::EmptyInput)
    } else if external_id is None && id is None {
        Err(CardError::MissingIdentifier)
    } else {
        Ok(ContactView {
            id: match external_id {
                Some(e) => e,
                None => or_empty(id),
            },
            name: or_empty(name),
            email: or_empty(email),
            phone: or_empty(phone),
        })
    }
}

/// A decoding result seen through the contact's view.
pub open spec fn decoded_view(r: Result<Contact, CardError>) -> Result<ContactView, CardError> {
    match r {
        Ok(c) => Ok(c@),
        Err(e) => Err(e),
    }
}

/// A later match for a key replaces an earlier one.
pub open spec fn later_wins(earlier: Option<Seq<char>>, later: Option<Seq<char>>) -> Option<Seq<char>> {
    match later {
        Some(v) => Some(v),
        None => earlier,
    }
}

pub open spec fn opt_view(o: Option<String>) -> Option<Seq<char>> {
    match o {
        Some(s) => Some(s@),
        None => None,
    }
}

proof fn lemma_first_line_len(t: Seq<char>, j: int)
    requires
        0 <= j <= t.len(),
        forall|i: int| 0 <= i < j ==> t[i] != '\n',
        j == t.len() || t[j] == '\n',
    ensures
        first_line_len(t) == j,
    decreases j,
{
    if j > 0 {
        lemma_first_line_len(t.drop_first(), j - 1);
    }
}

/// The first line of `s` from `pos` runs to `k`, so the lines from `pos` are
/// that line followed by the lines after `k`.
proof fn lemma_text_lines_step(s: Seq<char>, pos: int, k: int)
    requires
        0 <= pos < s.len(),
        pos <= k <= s.len(),
        forall|i: int| pos <= i < k ==> s[i] != '\n',
        k == s.len() || s[k] == '\n',
    ensures
        k < s.len() ==> text_lines(s.skip(pos)) == seq![trim_cr(s.subrange(pos, k))] + text_lines(s.skip(k + 1)),
        k == s.len() ==> text_lines(s.skip(pos)) == seq![s.subrange(pos, k)],
{
    let t = s.skip(pos);
    lemma_first_line_len(t, k - pos);
    assert(t.take(k - pos) =~= s.subrange(pos, k));
    if k < s.len() {
        assert(t.skip(k - pos + 1) =~= s.skip(k + 1));
    } else {
        assert(t =~= s.subrange(pos, k));
    }
}

/// A field value that stays on one line of card text: no newline, and no
/// trailing carriage return that line splitting would take for a terminator.
pub open spec fn line_safe(v: Seq<char>) -> bool {
    &&& forall|i: int| 0 <= i < v.len() ==> v[i] != '\n'
    &&& (v.len() == 0 || v.last() != '\r')
}

/// A contact whose card text decodes back to it.
pub open spec fn card_safe(c: ContactView) -> bool {
    &&& c.id.len() > 0
    &&& line_safe(c.id)
    &&& line_safe(c.name)
    &&& line_safe(c.email)
    &&& line_safe(c.phone)
}

proof fn lemma_lines_of_join(ls: Seq<Seq<char>>)
    requires
        forall|k: int| 0 <= k < ls.len() ==> line_safe(#[trigger] ls[k]),
    ensures
        text_lines(join_lines(ls)) == ls,
    decreases ls.len(),
{
    if ls.len() > 0 {
        let a = ls[0];
        let rest = join_lines(ls.drop_first());
        let t = join_lines(ls);
        assert(t == a + seq!['\n'] + rest);
        assert(line_safe(ls[0]));
        assert forall|i: int| 0 <= i < a.len() implies t[i] != '\n' by {
            assert(t[i] == a[i]);
        }
        lemma_first_line_len(t, a.len() as int);
        assert(t.take(a.len() as int) =~= a);
        assert(t.skip(a.len() + 1 as int) =~= rest);
        assert forall|k: int| 0 <= k < ls.drop_first().len() implies line_safe(#[trigger] ls.drop_first()[k]) by {
            assert(ls.drop_first()[k] == ls[k + 1]);
        }
        lemma_lines_of_join(ls.drop_first());
        assert(text_lines(t) =~= ls);
    }
}

proof fn lemma_line_safe_concat(key: Seq<char>, v: Seq<char>)
    requires
        line_safe(key),
        key.len() > 0,
        line_safe(v),
    ensures
        line_safe(key + v),
{
    let l = key + v;
    assert forall|i: int| 0 <= i < l.len() implies l[i] != '\n' by {
        if i < key.len() {
            assert(l[i] == key[i]);
        } else {
            assert(l[i] == v[i - key.len()]);
        }
    }
}

/// Decoding the card text of a contact, with its identifier given as the
/// external identifier, gives back that contact.
pub proof fn lemma_round_trip(c: ContactView)
    requires
        card_safe(c),
    ensures
        decode_spec(encode_spec(c), Some(c.id)) == Ok::<ContactView, CardError>(c),
{
    let ls = card_lines_of(c);
    lemma_line_safe_concat(id_key(), c.id);
    lemma_line_safe_concat(name_key(), c.name);
    lemma_line_safe_concat(email_key(), c.email);
    lemma_line_safe_concat(phone_key(), c.phone);
    assert forall|k: int| 0 <= k < ls.len() implies line_safe(#[trigger] ls[k]) by {
        if k == 0 || k == 1 || k == 6 {
            assert(line_safe(ls[k]));
        }
    }
    lemma_lines_of_join(ls);
    reveal_with_fuel(field_of, 8);
    assert(!has_prefix(begin_line(), id_key()) && !has_prefix(begin_line(), name_key()));
    assert(!has_prefix(begin_line(), email_key()) && !has_prefix(begin_line(), phone_key()));
    assert(!has_prefix(version_line(), id_key()) && !has_prefix(version_line(), name_key()));
    assert(!has_prefix(version_line(), email_key()) && !has_prefix(version_line(), phone_key()));
    assert(!has_prefix(end_line(), id_key()) && !has_prefix(end_line(), name_key()));
    assert(!has_prefix(end_line(), email_key()) && !has_prefix(end_line(), phone_key()));
    let lid = id_key() + c.id;
    let lname = name_key() + c.name;
    let lemail = email_key() + c.email;
    let lphone = phone_key() + c.phone;
    assert(lid.take(3) =~= id_key() && lid.skip(3) =~= c.id);
    assert(lname.take(3) =~= name_key() && lname.skip(3) =~= c.name);
    assert(lemail.take(6) =~= email_key() && lemail.skip(6) =~= c.email);
    assert(lphone.take(4) =~= phone_key() && lphone.skip(4) =~= c.phone);
    assert(lid[0] == 'I' && lname[0] == 'F' && lemail[0] == 'E' && lemail[1] == 'M' && lphone[0] == 'T');
    assert(!has_prefix(lid, name_key()) && !has_prefix(lid, email_key()) && !has_prefix(lid, phone_key()));
    assert(!has_prefix(lname, id_key()) && !has_prefix(lname, email_key()) && !has_prefix(lname, phone_key()));
    assert(!has_prefix(lemail, id_key()) && !has_prefix(lemail, name_key()) && !has_prefix(lemail, phone_key()));
    assert(!has_prefix(lphone, id_key()) && !has_prefix(lphone, name_key()) && !has_prefix(lphone, email_key()));
    assert(field_of(ls, id_key()) == Some(c.id));
    assert(field_of(ls, name_key()) == Some(c.name));
    assert(field_of(ls, email_key()) == Some(c.email));
    assert(field_of(ls, phone_key()) == Some(c.phone));
}

/// The value after `key` when `line` starts with it.
fn value_after(line: &str, key: &str) -> (r: Option<String>)
    ensures
        opt_view(r) == (if has_prefix(line@, key@) {
            Some(line@.skip(key@.len() as int))
        } else {
            None
        }),
{
    let n = line.unicode_len();
    let m = key.unicode_len();
    if m > n {
        return None;
    }
    let mut i: usize = 0;
    while i < m
        invariant
            m == key@.len(),
            n == line@.len(),
            m <= n,
            i <= m,
            forall|j: int| 0 <= j < i ==> line@[j] == key@[j],
        decreases m - i,
    {
        if line.get_char(i) != key.get_char(i) {
            proof {
                assert(line@.take(m as int)[i as int] != key@[i as int]);
            }
            return None;
        }
        i = i + 1;
    }
    proof {
        assert(line@.take(m as int) =~= key@);
    }
    Some(String::from_str(line.substring_char(m, n)))
}

impl Contact {
    /// Decodes card text. Lines are matched by their `ID:`, `FN:`, `EMAIL:` and
    /// `TEL:` prefixes in any order, a later line replacing an earlier one;
    /// other lines are ignored. `external_id`, when given, is the identifier and
    /// no identifier line is needed. Text with no recognised line fails with
    /// `EmptyInput`; without any identifier it fails with `MissingIdentifier`.
    pub fn decode(text: &str, external_id: Option<&str>) -> (r: Result<Contact, CardError>)
        ensures
            decoded_view(r) == decode_spec(
                text@,
                match external_id {
                    Some(e) => Some(e@),
                    None => None,
                },
            ),
    {
        proof {
            reveal_strlit("ID:");
            reveal_strlit("FN:");
            reveal_strlit("EMAIL:");
            reveal_strlit("TEL:");
            assert("ID:"@ =~= id_key());
            assert("FN:"@ =~= name_key());
            assert("EMAIL:"@ =~= email_key());
            assert("TEL:"@ =~= phone_key());
        }
        let ghost s = text@;
        let ghost all = text_lines(s);
        let n = text.unicode_len();
        let mut id: Option<String> = None;
        let mut name: Option<String> = None;
        let mut email: Option<String> = None;
        let mut phone: Option<String> = None;
        let mut pos: usize = 0;
        assert(s.skip(0) =~= s);
        while pos < n
            invariant
                n == s.len(),
                s == text@,
                all == text_lines(s),
                pos <= n,
                "ID:"@ == id_key(),
                "FN:"@ == name_key(),
                "EMAIL:"@ == email_key(),
                "TEL:"@ == phone_key(),
                later_wins(opt_view(id), field_of(text_lines(s.skip(pos as int)), id_key())) == field_of(all, id_key()),
                later_wins(opt_view(name), field_of(text_lines(s.skip(pos as int)), name_key())) == field_of(all, name_key()),
                later_wins(opt_view(email), field_of(text_lines(s.skip(pos as int)), email_key())) == field_of(all, email_key()),
                later_wins(opt_view(phone), field_of(text_lines(s.skip(pos as int)), phone_key())) == field_of(all, phone_key()),
            decreases n - pos,
        {
            let mut k: usize = pos;
            while k < n && text.get_char(k) != '\n'
                invariant
                    n == s.len(),
                    s == text@,
                    pos <= k <= n,
                    forall|i: int| pos <= i < k ==> s[i] != '\n',
                decreases n - k,
            {
                k = k + 1;
            }
            let mut end: usize = k;
            if k < n && k > pos && text.get_char(k - 1) == '\r' {
                end = k - 1;
            }
            let line = text.substring_char(pos, end);
            proof {
                lemma_text_lines_step(s, pos as int, k as int);
                if k < n {
                    assert(line@ =~= trim_cr(s.subrange(pos as int, k as int)));
                }
                let rest = text_lines(s.skip(pos as int));
                assert(rest.drop_first() =~= (if k < n { text_lines(s.skip(k + 1)) } else { Seq::empty() }));
                assert(rest[0] == line@);
            }
            if let Some(v) = value_after(line, "ID:") {
                id = Some(v);
            } else if let Some(v) = value_after(line, "FN:") {
                name = Some(v);
            } else if let Some(v) = value_after(line, "EMAIL:") {
                email = Some(v);
            } else if let Some(v) = value_after(line, "TEL:") {
                phone = Some(v);
            }
            proof {
                if k < n {
                } else {
                    assert(s.skip(n as int) =~= Seq::<char>::empty());
                }
            }
            if k < n {
                pos = k + 1;
            } else {
                pos = n;
            }
        }
        proof {
            assert(s.skip(n as int) =~= Seq::<char>::empty());
        }
        if id.is_none() && name.is_none() && email.is_none() && phone.is_none() {
            return Err(CardError::EmptyInput);
        }
        let contact_id = match external_id {
            Some(e) => String::from_str(e),
            None => match id {
                Some(v) => v,
                None => {
                    return Err(CardError::MissingIdentifier);
                },
            },
        };
        Ok(Contact {
            id: contact_id,
            name: match name {
                Some(v) => v,
                None => String::new(),
            },
            email: match email {
                Some(v) => v,
                None => String::new(),
            },
            phone: match phone {
                Some(v) => v,
                None => String::new(),
            },
        })
    }

    /// The card text of this contact: begin and version markers, then the
    /// identifier, name, email and phone lines, then the end marker, each line
    /// ended by a newline.
    pub fn encode(&self) -> (r: String)
        ensures
            r@ == encode_spec(self@),
    {
        proof {
            reveal_strlit("BEGIN:VCARD");
            reveal_strlit("VERSION:4.0");
            reveal_strlit("END:VCARD");
            reveal_strlit("ID:");
            reveal_strlit("FN:");
            reveal_strlit("EMAIL:");
            reveal_strlit("TEL:");
            reveal_strlit("\n");
        }
        let mut r = String::new();
        r.append("BEGIN:VCARD");
        r.append("\n");
        r.append("VERSION:4.0");
        r.append("\n");
        r.append("ID:");
        r.append(self.id.as_str());
        r.append("\n");
        r.append("FN:");
        r.append(self.name.as_str());
        r.append("\n");
        r.append("EMAIL:");
        r.append(self.email.as_str());
        r.append("\n");
        r.append("TEL:");
        r.append(self.phone.as_str());
        r.append("\n");
        r.append("END:VCARD");
        r.append("\n");
        proof {
            let ls = card_lines_of(self@);
            reveal_with_fuel(join_lines, 8);
            assert(ls.drop_first().drop_first().drop_first().drop_first().drop_first().drop_first().drop_first() =~= Seq::<Seq<char>>::empty());
            assert(r@ =~= encode_spec(self@));
        }
        r
    }
}

} // verus!
