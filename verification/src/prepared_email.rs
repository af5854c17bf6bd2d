//! Message preparation: turning a freshly submitted RFC 5322 message into a
//! `PreparedEmail` (envelope plus serialized bytes) and an
//! `InternalMessageStatus` (per-recipient tracking).
//!
//! The RFC 5322 work itself (header access, Bcc removal, serialization) is
//! the `email_format` crate's; the engine's own logic — collecting and
//! de-duplicating recipients, forming the message identifier, validating
//! addresses, building the tracking state — is verified here on the plain
//! values those calls hand back.

use vstd::prelude::*;
use vstd::string::StringExecFns;
use crate::delivery_result::{DeliveryResult, DeliveryResultView};
use crate::error::Error;
use crate::message_status::InternalMessageStatus;
use crate::recipient_status::{InternalRecipientStatus, RecipientStatusModel};
use crate::text::{spec_trimmed, trim_chars};
use email_format::Email;
use email_format::rfc5322::Parsable;
use email_format::rfc5322::headers::Bcc;
use email_format::rfc5322::types::{Address, GroupList, Mailbox};

verus! {

/// The message type of the `email_format` crate; opaque to the verified
/// code, which reads and edits it only through the wrappers below.
#[verifier::external_type_specification]
#[verifier::external_body]
pub struct ExEmail(Email);

/// An address of the `email_format` crate: a mailbox or a group.
#[verifier::external_type_specification]
#[verifier::external_body]
pub struct ExAddress(Address);

/// A mailbox of the `email_format` crate.
#[verifier::external_type_specification]
#[verifier::external_body]
pub struct ExMailbox(Mailbox);

/// One mailbox, reduced to the three strings the engine tracks.
#[derive(Debug)]
pub struct MailboxAddr {
    /// The mailbox as displayed (possibly with a display name).
    pub display: String,
    /// The addr-spec alone, for SMTP.
    pub addr_spec: String,
    /// The right-hand side of the addr-spec.
    pub domain: String,
}

/// The mathematical model of a `MailboxAddr`.
pub struct MailboxAddrModel {
    pub display: Seq<char>,
    pub addr_spec: Seq<char>,
    pub domain: Seq<char>,
}

impl View for MailboxAddr {
    type V = MailboxAddrModel;

    open spec fn view(&self) -> MailboxAddrModel {
        MailboxAddrModel {
            display: self.display@,
            addr_spec: self.addr_spec@,
            domain: self.domain@,
        }
    }
}

/// One entry of an address header: a single mailbox, or a group flattened
/// to its mailboxes.  A group whose list is absent or holds only
/// whitespace and comments becomes an empty group and is dropped.
#[derive(Debug)]
pub enum AddressEntry {
    Single(MailboxAddr),
    Group(Vec<MailboxAddr>),
}

/// The mathematical model of an `AddressEntry`.
pub enum AddressEntryModel {
    Single(MailboxAddrModel),
    Group(Seq<MailboxAddrModel>),
}

impl View for AddressEntry {
    type V = AddressEntryModel;

    open spec fn view(&self) -> AddressEntryModel {
        match self {
            AddressEntry::Single(m) => AddressEntryModel::Single(m@),
            AddressEntry::Group(g) => AddressEntryModel::Group(
                g@.map_values(|m: MailboxAddr| m@),
            ),
        }
    }
}

/// Relies on the `Display` of `email_format`'s `NameAddr`, `AddrSpec` and
/// `Domain`: renders the mailbox, its addr-spec and its domain, exactly as
/// the crate streams them (which may carry the grammar's surrounding
/// folding whitespace; trimming is done afterwards by verified code).
#[verifier::external_body]
fn convert_mailbox(mb: &Mailbox) -> (r: MailboxAddr) {
    match mb {
        Mailbox::NameAddr(na) => MailboxAddr {
            display: format!("{}", na),
            addr_spec: format!("{}", na.angle_addr.addr_spec),
            domain: format!("{}", na.angle_addr.addr_spec.domain),
        },
        Mailbox::AddrSpec(a) => MailboxAddr {
            display: format!("{}", a),
            addr_spec: format!("{}", a),
            domain: format!("{}", a.domain),
        },
    }
}

/// Relies on `email_format`'s `Address`: a mailbox, or a group whose
/// `group_list` is a mailbox list, absent, or whitespace/comments only.
#[verifier::external_body]
fn convert_address(a: &Address) -> (r: AddressEntry) {
    match a {
        Address::Mailbox(mb) => AddressEntry::Single(convert_mailbox(mb)),
        Address::Group(g) => match &g.group_list {
            Some(GroupList::MailboxList(mbl)) => AddressEntry::Group(
                mbl.0.iter().map(convert_mailbox).collect(),
            ),
            _ => AddressEntry::Group(Vec::new()),
        },
    }
}

/// Relies on `Email::get_to`: the `To` header's address list, or nothing.
#[verifier::external_body]
fn to_entries(email: &Email) -> (r: Vec<AddressEntry>) {
    match email.get_to() {
        Some(to) => (to.0).0.iter().map(convert_address).collect(),
        None => Vec::new(),
    }
}

/// Relies on `Email::get_cc`: the `Cc` header's address list, or nothing.
#[verifier::external_body]
fn cc_entries(email: &Email) -> (r: Vec<AddressEntry>) {
    match email.get_cc() {
        Some(cc) => (cc.0).0.iter().map(convert_address).collect(),
        None => Vec::new(),
    }
}

/// Relies on `Email::get_bcc`: the `Bcc` header's address list; a `Bcc` of
/// comments only, an empty `Bcc`, or no `Bcc` yields nothing.
#[verifier::external_body]
fn bcc_entries(email: &Email) -> (r: Vec<AddressEntry>) {
    match email.get_bcc() {
        Some(Bcc::AddressList(al)) => al.0.iter().map(convert_address).collect(),
        _ => Vec::new(),
    }
}

/// Relies on `Email::as_bytes`, `Fields::parse` and the `Display` of a
/// mailbox list: the rendered value of the message's `From` field, or
/// `None` when the message carries none.  `Email::get_from` is not used:
/// it panics on a message without a From field (composition always adds
/// one, but a parsed message need not carry one), so the field is taken
/// from the byte image through the crate's own parser instead.
#[verifier::external_body]
fn from_address(email: &Email) -> (r: Option<String>) {
    let bytes = email.as_bytes();
    match email_format::rfc5322::Fields::parse(&bytes) {
        Ok((fields, _)) => fields.fields.iter().find_map(|f| match f {
            email_format::rfc5322::Field::From(from) => Some(format!("{}", from.0)),
            _ => None,
        }),
        Err(_) => None,
    }
}

/// Relies on `Email::get_message_id` and the `Display` of `IdLeft` and
/// `IdRight`: both sides of the msg-id, which the grammar
/// (`dot-atom-text`, `no-fold-literal`) keeps non-empty.
#[verifier::external_body]
fn get_message_id_parts(email: &Email) -> (r: Option<(String, String)>)
    ensures
        r matches Some(p) ==> p.0@.len() > 0 && p.1@.len() > 0,
{
    match email.get_message_id() {
        Some(mid) => Some(
            (format!("{}", mid.0.id_left), format!("{}", mid.0.id_right)),
        ),
        None => None,
    }
}

/// Relies on `Email::set_message_id`: parses the given `<id-left@id-right>`
/// and replaces (or appends) the `Message-ID` header; a value that does not
/// parse is the error.
#[verifier::external_body]
fn set_message_id_str(email: &mut Email, value: &str) -> (r: Result<(), String>) {
    email.set_message_id(value).map_err(|e| format!("{:?}", e))
}

/// A byte is the start of a line: the first byte, or right after a LF.
pub open spec fn line_start(b: Seq<u8>, i: int) -> bool {
    i == 0 || (0 < i && b[i - 1] == 10)
}

/// The length of the header section: up to the first blank line (CRLF
/// CRLF), or the whole message when none exists.
pub open spec fn header_len(b: Seq<u8>) -> int
    decreases b.len(),
{
    if b.len() < 4 {
        b.len() as int
    } else if b[0] == 13 && b[1] == 10 && b[2] == 13 && b[3] == 10 {
        0
    } else {
        1 + header_len(b.subrange(1, b.len() as int))
    }
}

/// Whether a `Bcc:` header line starts at `i`: a line start inside the
/// header section whose next bytes are `B`, `c`, `c`, `:` — the name taken
/// case-insensitively, as RFC 5322 field names are.
pub open spec fn bcc_line_at(b: Seq<u8>, i: int) -> bool {
    &&& 0 <= i && i + 4 <= b.len()
    &&& line_start(b, i)
    &&& i <= header_len(b)
    &&& (b[i] == 66 || b[i] == 98)
    &&& (b[i + 1] == 67 || b[i + 1] == 99)
    &&& (b[i + 2] == 67 || b[i + 2] == 99)
    &&& b[i + 3] == 58
}

/// Whether the byte image carries a `Bcc:` header line.
pub open spec fn has_bcc_header(b: Seq<u8>) -> bool {
    exists|i: int| bcc_line_at(b, i)
}

/// Whether a blank line (CRLF CRLF) starts at `i`.
pub open spec fn blank_at(b: Seq<u8>, i: int) -> bool {
    &&& 0 <= i && i + 4 <= b.len()
    &&& b[i] == 13 && b[i + 1] == 10 && b[i + 2] == 13 && b[i + 3] == 10
}

/// `header_len` is the position of the first blank line.
proof fn lemma_header_len_first_blank(b: Seq<u8>, k: int)
    requires
        blank_at(b, k),
        forall|j: int| 0 <= j < k ==> !blank_at(b, j),
    ensures
        header_len(b) == k,
    decreases b.len(),
{
    if k > 0 {
        assert(!blank_at(b, 0));
        let tail = b.subrange(1, b.len() as int);
        assert(blank_at(tail, k - 1)) by {
            assert(tail[k - 1] == b[k]);
            assert(tail[k] == b[k + 1]);
            assert(tail[k + 1] == b[k + 2]);
            assert(tail[k + 2] == b[k + 3]);
        }
        assert forall|j: int| 0 <= j < k - 1 implies !blank_at(tail, j) by {
            if blank_at(tail, j) {
                assert(b[j + 1] == tail[j]);
                assert(b[j + 2] == tail[j + 1]);
                assert(b[j + 3] == tail[j + 2]);
                assert(b[j + 4] == tail[j + 3]);
                assert(blank_at(b, j + 1));
            }
        }
        lemma_header_len_first_blank(tail, k - 1);
    }
}

/// Without a blank line, the whole message is header.
proof fn lemma_header_len_no_blank(b: Seq<u8>)
    requires
        forall|j: int| !blank_at(b, j),
    ensures
        header_len(b) == b.len(),
    decreases b.len(),
{
    if b.len() >= 4 {
        assert(!blank_at(b, 0));
        let tail = b.subrange(1, b.len() as int);
        assert forall|j: int| !blank_at(tail, j) by {
            if 0 <= j && j + 4 <= tail.len() && blank_at(tail, j) {
                assert(b[j + 1] == tail[j]);
                assert(b[j + 2] == tail[j + 1]);
                assert(b[j + 3] == tail[j + 2]);
                assert(b[j + 4] == tail[j + 3]);
                assert(blank_at(b, j + 1));
            }
        }
        lemma_header_len_no_blank(tail);
    }
}

/// The length of the byte image's header section: up to the first blank
/// line, or the whole image when none exists.
fn compute_header_len(message: &Vec<u8>) -> (r: usize)
    ensures
        r as int == header_len(message@),
        r <= message@.len(),
{
    let n = message.len();
    if n < 4 {
        proof {
            lemma_header_len_no_blank(message@);
        }
        return n;
    }
    let mut i: usize = 0;
    while i <= n - 4 && !(message[i] == 13 && message[i + 1] == 10 && message[i + 2] == 13
        && message[i + 3] == 10)
        invariant
            n == message@.len(),
            4 <= n,
            0 <= i <= n - 3,
            forall|j: int| 0 <= j < i ==> !blank_at(message@, j),
        decreases n - i,
    {
        proof {
            assert(!blank_at(message@, i as int));
        }
        i = i + 1;
    }
    if i <= n - 4 {
        proof {
            assert(blank_at(message@, i as int));
            lemma_header_len_first_blank(message@, i as int);
        }
        i
    } else {
        proof {
            assert forall|j: int| !blank_at(message@, j) by {
                if 0 <= j && j + 4 <= n {
                    assert(j < i);
                }
            }
            lemma_header_len_no_blank(message@);
        }
        n
    }
}

/// Scans a rendered byte image for a `Bcc:` header line, so that the
/// Bcc-blinding of a prepared message is checked here rather than assumed
/// of the renderer.
pub fn message_has_bcc_header(message: &Vec<u8>) -> (r: bool)
    ensures
        r == has_bcc_header(message@),
{
    let n = message.len();
    let hl = compute_header_len(message);
    if n < 4 {
        proof {
            assert forall|j: int| !bcc_line_at(message@, j) by {}
        }
        return false;
    }
    let mut i: usize = 0;
    while i <= n - 4
        invariant
            n == message@.len(),
            4 <= n,
            hl as int == header_len(message@),
            0 <= i <= n - 3,
            forall|j: int| 0 <= j < i ==> !bcc_line_at(message@, j),
        decreases n - i,
    {
        let at_line_start = i == 0 || message[i - 1] == 10;
        let b0 = message[i];
        let b1 = message[i + 1];
        let b2 = message[i + 2];
        let b3 = message[i + 3];
        if at_line_start && i <= hl && (b0 == 66 || b0 == 98) && (b1 == 67 || b1 == 99) && (b2
            == 67 || b2 == 99) && b3 == 58 {
            proof {
                assert(bcc_line_at(message@, i as int));
            }
            return true;
        }
        proof {
            assert(!bcc_line_at(message@, i as int));
        }
        i = i + 1;
    }
    proof {
        assert forall|j: int| !bcc_line_at(message@, j) by {
            if 0 <= j && j + 4 <= n {
                assert(j < i);
            }
        }
    }
    false
}

/// Relies on `Email::clear_bcc`: drops the typed `Bcc` field from the
/// message.  Nothing is promised: a header line whose name reads "Bcc" but
/// whose value does not fit the Bcc grammar parses as an optional field and
/// survives this call, so the rendered bytes are checked afterwards by
/// verified code.
#[verifier::external_body]
fn clear_bcc_field(email: &mut Email) {
    email.clear_bcc();
}

/// Relies on `Email`'s `Display` (its `Streamable` form): the byte image of
/// the message.  Nothing is promised of the bytes; what the engine needs of
/// them is checked afterwards by verified code.
#[verifier::external_body]
fn render_message(email: &Email) -> (r: Vec<u8>) {
    format!("{}", email).into_bytes()
}

/// Relies on `uuid::Uuid::new_v4` and its hyphenated form: 36 characters,
/// hexadecimal digits and hyphens, so never an `@`.  The value is random;
/// nothing else is promised.
#[verifier::external_body]
fn new_uuid_hyphenated() -> (r: String)
    ensures
        r@.len() == 36,
        forall|i: int| 0 <= i < r@.len() ==> r@[i] != '@',
{
    uuid::Uuid::new_v4().to_hyphenated().to_string()
}

/// Whether a string passes the SMTP library's address syntax check; a
/// function of the characters alone.
pub uninterp spec fn valid_email_addr(s: Seq<char>) -> bool;

/// Relies on `lettre::EmailAddress::new`: accepts the address exactly when
/// its syntax check (or the `localhost` allowance) does; the error payload
/// describes the rejection.
#[verifier::external_body]
fn check_email_address(s: &String) -> (r: Result<(), String>)
    ensures
        r is Ok <==> valid_email_addr(s@),
{
    match lettre::EmailAddress::new(s.clone()) {
        Ok(_) => Ok(()),
        Err(e) => Err(format!("{:?}", e)),
    }
}

/// An email, prepared for delivery.
#[derive(Debug)]
pub struct PreparedEmail {
    /// The SMTP RCPT TO set: the de-duplicated addr-specs of To, Cc and
    /// Bcc.
    pub to: Vec<String>,
    /// The envelope sender.
    pub from: String,
    /// The message identifier, as tracked by the engine.
    pub message_id: String,
    /// The byte image of the message, Bcc removed and Message-ID present.
    pub message: Vec<u8>,
}

/// The mathematical model of a `PreparedEmail`.
pub struct PreparedEmailModel {
    pub to: Seq<Seq<char>>,
    pub from: Seq<char>,
    pub message_id: Seq<char>,
    pub message: Seq<u8>,
}

impl View for PreparedEmail {
    type V = PreparedEmailModel;

    open spec fn view(&self) -> PreparedEmailModel {
        PreparedEmailModel {
            to: self.to@.map_values(|s: String| s@),
            from: self.from@,
            message_id: self.message_id@,
            message: self.message@,
        }
    }
}

impl Clone for PreparedEmail {
    fn clone(&self) -> (r: Self)
        ensures
            r@ == self@,
    {
        let r = PreparedEmail {
            to: crate::recipient_status::clone_string_vec(&self.to),
            from: self.from.clone(),
            message_id: self.message_id.clone(),
            message: clone_byte_vec(&self.message),
        };
        proof {
            assert(r@ =~= self@);
        }
        r
    }
}

/// Clones a byte vector.
fn clone_byte_vec(v: &Vec<u8>) -> (r: Vec<u8>)
    ensures
        r@ == v@,
{
    let mut r: Vec<u8> = Vec::new();
    let mut i: usize = 0;
    while i < v.len()
        invariant
            0 <= i <= v@.len(),
            r@ == v@.take(i as int),
        decreases v.len() - i,
    {
        r.push(v[i]);
        proof {
            assert(v@.take(i + 1) =~= v@.take(i as int).push(v@[i as int]));
        }
        i = i + 1;
    }
    proof {
        assert(v@.take(v@.len() as int) =~= v@);
    }
    r
}

/// The mailboxes of a list of address entries, in order, groups flattened.
pub open spec fn flatten_entries(entries: Seq<AddressEntryModel>) -> Seq<MailboxAddrModel>
    decreases entries.len(),
{
    if entries.len() == 0 {
        Seq::empty()
    } else {
        flatten_entries(entries.drop_last()) + (match entries.last() {
            AddressEntryModel::Single(m) => seq![m],
            AddressEntryModel::Group(g) => g,
        })
    }
}

/// Whether some mailbox of the list has this addr-spec.
pub open spec fn has_addr(s: Seq<MailboxAddrModel>, a: Seq<char>) -> bool {
    exists|j: int| 0 <= j < s.len() && s[j].addr_spec == a
}

/// De-duplication by addr-spec equality, preserving first occurrence.
pub open spec fn dedup_by_addr(s: Seq<MailboxAddrModel>) -> Seq<MailboxAddrModel>
    decreases s.len(),
{
    if s.len() == 0 {
        Seq::empty()
    } else {
        let d = dedup_by_addr(s.drop_last());
        if has_addr(s.drop_last(), s.last().addr_spec) {
            d
        } else {
            d.push(s.last())
        }
    }
}

/// De-duplication keeps exactly the addr-specs of the input.
pub proof fn lemma_dedup_members(s: Seq<MailboxAddrModel>, a: Seq<char>)
    ensures
        has_addr(dedup_by_addr(s), a) == has_addr(s, a),
    decreases s.len(),
{
    if s.len() > 0 {
        lemma_dedup_members(s.drop_last(), a);
        let d = dedup_by_addr(s.drop_last());
        if has_addr(s.drop_last(), s.last().addr_spec) {
            assert(has_addr(s, a) == has_addr(s.drop_last(), a)) by {
                if has_addr(s, a) {
                    let j = choose|j: int| 0 <= j < s.len() && s[j].addr_spec == a;
                    if j == s.len() - 1 {
                        let j2 = choose|j2: int|
                            0 <= j2 < s.drop_last().len() && s.drop_last()[j2].addr_spec
                                == s.last().addr_spec;
                        assert(s.drop_last()[j2].addr_spec == a);
                    } else {
                        assert(s.drop_last()[j].addr_spec == a);
                    }
                }
                if has_addr(s.drop_last(), a) {
                    let j = choose|j: int|
                        0 <= j < s.drop_last().len() && s.drop_last()[j].addr_spec == a;
                    assert(s[j].addr_spec == a);
                }
            }
        } else {
            assert(has_addr(s, a) == (has_addr(s.drop_last(), a) || s.last().addr_spec == a)) by {
                if has_addr(s, a) {
                    let j = choose|j: int| 0 <= j < s.len() && s[j].addr_spec == a;
                    if j < s.len() - 1 {
                        assert(s.drop_last()[j].addr_spec == a);
                    }
                }
                if has_addr(s.drop_last(), a) {
                    let j = choose|j: int|
                        0 <= j < s.drop_last().len() && s.drop_last()[j].addr_spec == a;
                    assert(s[j].addr_spec == a);
                }
                if s.last().addr_spec == a {
                    assert(s[s.len() - 1].addr_spec == a);
                }
            }
            assert(has_addr(d.push(s.last()), a) == (has_addr(d, a) || s.last().addr_spec
                == a)) by {
                if has_addr(d.push(s.last()), a) {
                    let j = choose|j: int|
                        0 <= j < d.push(s.last()).len() && d.push(s.last())[j].addr_spec == a;
                    if j < d.len() {
                        assert(d[j].addr_spec == a);
                    }
                }
                if has_addr(d, a) {
                    let j = choose|j: int| 0 <= j < d.len() && d[j].addr_spec == a;
                    assert(d.push(s.last())[j].addr_spec == a);
                }
                if s.last().addr_spec == a {
                    assert(d.push(s.last())[d.len() as int].addr_spec == a);
                }
            }
        }
    }
}

/// De-duplication leaves no two mailboxes with the same addr-spec.
pub proof fn lemma_dedup_distinct(s: Seq<MailboxAddrModel>)
    ensures
        forall|i: int, j: int|
            0 <= i < j < dedup_by_addr(s).len() ==> dedup_by_addr(s)[i].addr_spec
                != dedup_by_addr(s)[j].addr_spec,
    decreases s.len(),
{
    if s.len() > 0 {
        lemma_dedup_distinct(s.drop_last());
        let d = dedup_by_addr(s.drop_last());
        if !has_addr(s.drop_last(), s.last().addr_spec) {
            lemma_dedup_members(s.drop_last(), s.last().addr_spec);
            let r = d.push(s.last());
            assert forall|i: int, j: int|
                0 <= i < j < r.len() implies r[i].addr_spec != r[j].addr_spec by {
                if j < d.len() {
                    assert(r[i] == d[i] && r[j] == d[j]);
                } else {
                    assert(r[i] == d[i] && r[j] == s.last());
                    if d[i].addr_spec == s.last().addr_spec {
                        assert(has_addr(d, s.last().addr_spec));
                    }
                }
            }
        }
    }
}

/// The running contents while a group is flattened: the base, the entries
/// handled so far, and the group's first `j` mailboxes.
pub open spec fn gtake_base(
    base: Seq<MailboxAddrModel>,
    evs: Seq<AddressEntryModel>,
    i: int,
    gview: Seq<MailboxAddrModel>,
    j: int,
) -> Seq<MailboxAddrModel> {
    base + flatten_entries(evs.take(i)) + gview.take(j)
}

/// Appends every mailbox of the entries, groups flattened, to `out`.
fn flatten_into(out: &mut Vec<MailboxAddr>, entries: &Vec<AddressEntry>)
    ensures
        final(out)@.map_values(|m: MailboxAddr| m@) == old(out)@.map_values(|m: MailboxAddr| m@)
            + flatten_entries(entries@.map_values(|e: AddressEntry| e@)),
{
    let ghost base = out@.map_values(|m: MailboxAddr| m@);
    let ghost evs = entries@.map_values(|e: AddressEntry| e@);
    let mut i: usize = 0;
    proof {
        assert(evs.take(0) =~= Seq::<AddressEntryModel>::empty());
        assert(base + flatten_entries(evs.take(0)) =~= base);
    }
    while i < entries.len()
        invariant
            evs == entries@.map_values(|e: AddressEntry| e@),
            evs.len() == entries@.len(),
            0 <= i <= evs.len(),
            out@.map_values(|m: MailboxAddr| m@) == base + flatten_entries(evs.take(i as int)),
        decreases entries.len() - i,
    {
        let ghost prefix = evs.take(i as int);
        proof {
            assert(evs.take(i + 1).drop_last() =~= prefix);
            assert(evs.take(i + 1).last() == evs[i as int]);
            assert(evs[i as int] == entries@[i as int]@);
        }
        let ghost prev = out@.map_values(|m: MailboxAddr| m@);
        match &entries[i] {
            AddressEntry::Single(m) => {
                proof {
                    assert(evs[i as int] == AddressEntryModel::Single(m@));
                    assert(flatten_entries(evs.take(i + 1)) == flatten_entries(prefix)
                        + seq![m@]);
                }
                out.push(clone_mailbox_addr(m));
                proof {
                    assert(out@.map_values(|m: MailboxAddr| m@) =~= prev.push(m@));
                    assert(prev.push(m@) =~= base + flatten_entries(evs.take(i + 1)));
                }
            },
            AddressEntry::Group(g) => {
                proof {
                    assert(evs[i as int] == AddressEntryModel::Group(
                        g@.map_values(|m: MailboxAddr| m@),
                    ));
                    assert(gtake_base(base, evs, i as int, g@.map_values(|m: MailboxAddr| m@), 0)
                        =~= prev);
                }
                let mut j: usize = 0;
                let ghost gview = g@.map_values(|m: MailboxAddr| m@);
                while j < g.len()
                    invariant
                        gview == g@.map_values(|m: MailboxAddr| m@),
                        gview.len() == g@.len(),
                        0 <= j <= gview.len(),
                        out@.map_values(|m: MailboxAddr| m@) == gtake_base(
                            base,
                            evs,
                            i as int,
                            gview,
                            j as int,
                        ),
                    decreases g.len() - j,
                {
                    let ghost gprev = out@.map_values(|m: MailboxAddr| m@);
                    out.push(clone_mailbox_addr(&g[j]));
                    proof {
                        assert(gview[j as int] == g@[j as int]@);
                        assert(out@.map_values(|m: MailboxAddr| m@) =~= gprev.push(
                            gview[j as int],
                        ));
                        assert(gview.take(j + 1) =~= gview.take(j as int).push(gview[j as int]));
                        assert(gprev.push(gview[j as int]) =~= gtake_base(
                            base,
                            evs,
                            i as int,
                            gview,
                            j + 1,
                        ));
                    }
                    j = j + 1;
                }
                proof {
                    assert(gview.take(gview.len() as int) =~= gview);
                    assert(flatten_entries(evs.take(i + 1)) == flatten_entries(
                        evs.take(i as int),
                    ) + gview);
                    assert(gtake_base(base, evs, i as int, gview, gview.len() as int) =~= base
                        + flatten_entries(evs.take(i + 1)));
                }
            },
        }
        i = i + 1;
    }
    proof {
        assert(evs.take(evs.len() as int) =~= evs);
    }
}

fn clone_mailbox_addr(m: &MailboxAddr) -> (r: MailboxAddr)
    ensures
        r@ == m@,
{
    MailboxAddr {
        display: m.display.clone(),
        addr_spec: m.addr_spec.clone(),
        domain: m.domain.clone(),
    }
}

/// De-duplicates mailboxes by addr-spec, preserving first occurrence.
fn dedup_mailboxes(mailboxes: Vec<MailboxAddr>) -> (r: Vec<MailboxAddr>)
    ensures
        r@.map_values(|m: MailboxAddr| m@) == dedup_by_addr(
            mailboxes@.map_values(|m: MailboxAddr| m@),
        ),
{
    let ghost full = mailboxes@.map_values(|m: MailboxAddr| m@);
    let mut out: Vec<MailboxAddr> = Vec::new();
    let mut i: usize = 0;
    proof {
        assert(full.take(0) =~= Seq::<MailboxAddrModel>::empty());
        assert(out@.map_values(|m: MailboxAddr| m@) =~= dedup_by_addr(full.take(0)));
    }
    while i < mailboxes.len()
        invariant
            full == mailboxes@.map_values(|m: MailboxAddr| m@),
            full.len() == mailboxes@.len(),
            0 <= i <= full.len(),
            out@.map_values(|m: MailboxAddr| m@) == dedup_by_addr(full.take(i as int)),
            forall|a: Seq<char>|
                has_addr(out@.map_values(|m: MailboxAddr| m@), a) == has_addr(
                    full.take(i as int),
                    a,
                ),
        decreases mailboxes.len() - i,
    {
        let ghost prefix = full.take(i as int);
        let ghost outv = out@.map_values(|m: MailboxAddr| m@);
        proof {
            assert(full.take(i + 1).drop_last() =~= prefix);
            assert(full.take(i + 1).last() == full[i as int]);
            assert(full[i as int] == mailboxes@[i as int]@);
        }
        let mut seen = false;
        let mut j: usize = 0;
        while j < out.len()
            invariant
                outv == out@.map_values(|m: MailboxAddr| m@),
                outv.len() == out@.len(),
                0 <= j <= outv.len(),
                full.len() == mailboxes@.len(),
                0 <= i < full.len(),
                full[i as int] == mailboxes@[i as int]@,
                seen ==> has_addr(outv, full[i as int].addr_spec),
                !seen ==> forall|x: int| 0 <= x < j ==> outv[x].addr_spec != full[
                    i as int].addr_spec,
            ensures
                outv == out@.map_values(|m: MailboxAddr| m@),
                seen ==> has_addr(outv, full[i as int].addr_spec),
                !seen ==> forall|x: int| 0 <= x < outv.len() ==> outv[x].addr_spec != full[
                    i as int].addr_spec,
            decreases out.len() - j,
        {
            if out[j].addr_spec == mailboxes[i].addr_spec {
                proof {
                    assert(outv[j as int].addr_spec == full[i as int].addr_spec);
                }
                seen = true;
                break ;
            }
            j = j + 1;
        }
        proof {
            if !seen {
                assert(!has_addr(outv, full[i as int].addr_spec)) by {
                    if has_addr(outv, full[i as int].addr_spec) {
                        let x = choose|x: int|
                            0 <= x < outv.len() && outv[x].addr_spec == full[i as int].addr_spec;
                    }
                }
            }
            assert(has_addr(prefix, full[i as int].addr_spec) == seen);
        }
        if !seen {
            out.push(clone_mailbox_addr(&mailboxes[i]));
            proof {
                assert(out@.map_values(|m: MailboxAddr| m@) =~= outv.push(full[i as int]));
            }
        }
        proof {
            let newv = out@.map_values(|m: MailboxAddr| m@);
            assert(newv == dedup_by_addr(full.take(i + 1)));
            assert forall|a: Seq<char>|
                has_addr(newv, a) == has_addr(full.take(i + 1), a) by {
                lemma_dedup_members(full.take(i + 1), a);
            }
        }
        i = i + 1;
    }
    proof {
        assert(full.take(full.len() as int) =~= full);
    }
    out
}

/// A mailbox with each field's surrounding whitespace removed.
pub open spec fn spec_trim_mailbox(m: MailboxAddrModel) -> MailboxAddrModel {
    MailboxAddrModel {
        display: spec_trimmed(m.display),
        addr_spec: spec_trimmed(m.addr_spec),
        domain: spec_trimmed(m.domain),
    }
}

/// Trims the surrounding whitespace off every field of a mailbox.
fn trim_mailbox(m: &MailboxAddr) -> (r: MailboxAddr)
    ensures
        r@ == spec_trim_mailbox(m@),
{
    MailboxAddr {
        display: trim_chars(m.display.as_str()),
        addr_spec: trim_chars(m.addr_spec.as_str()),
        domain: trim_chars(m.domain.as_str()),
    }
}

/// The tracking state a fresh recipient starts in: queued, MX servers not
/// yet resolved.
pub open spec fn initial_recipient(m: MailboxAddrModel) -> RecipientStatusModel {
    RecipientStatusModel {
        email_addr: m.display,
        smtp_email_addr: m.addr_spec,
        domain: m.domain,
        mx_servers: Option::None,
        current_mx: 0,
        result: DeliveryResultView::Queued,
    }
}

/// Builds the fresh recipient list of a message: the mailboxes of To, Cc
/// and Bcc in order, groups flattened, each field trimmed of surrounding
/// whitespace, de-duplicated by addr-spec with the first occurrence kept,
/// each starting queued with no MX data.
pub fn build_recipients(
    to: &Vec<AddressEntry>,
    cc: &Vec<AddressEntry>,
    bcc: &Vec<AddressEntry>,
) -> (r: Vec<InternalRecipientStatus>)
    ensures
        r@.map_values(|x: InternalRecipientStatus| x@) == dedup_by_addr(
            flatten_entries(
                to@.map_values(|e: AddressEntry| e@) + cc@.map_values(|e: AddressEntry| e@)
                    + bcc@.map_values(|e: AddressEntry| e@),
            ).map_values(|m: MailboxAddrModel| spec_trim_mailbox(m)),
        ).map_values(|m: MailboxAddrModel| initial_recipient(m)),
{
    let mut mailboxes: Vec<MailboxAddr> = Vec::new();
    flatten_into(&mut mailboxes, to);
    flatten_into(&mut mailboxes, cc);
    flatten_into(&mut mailboxes, bcc);
    proof {
        lemma_flatten_entries_concat(
            to@.map_values(|e: AddressEntry| e@),
            cc@.map_values(|e: AddressEntry| e@),
        );
        lemma_flatten_entries_concat(
            to@.map_values(|e: AddressEntry| e@) + cc@.map_values(|e: AddressEntry| e@),
            bcc@.map_values(|e: AddressEntry| e@),
        );
        assert(Seq::<MailboxAddrModel>::empty() + flatten_entries(
            to@.map_values(|e: AddressEntry| e@),
        ) =~= flatten_entries(to@.map_values(|e: AddressEntry| e@)));
    }
    let ghost flat = mailboxes@.map_values(|m: MailboxAddr| m@);
    let mut trimmed: Vec<MailboxAddr> = Vec::new();
    let mut k: usize = 0;
    while k < mailboxes.len()
        invariant
            flat == mailboxes@.map_values(|m: MailboxAddr| m@),
            flat.len() == mailboxes@.len(),
            0 <= k <= flat.len(),
            trimmed@.len() == k,
            forall|j: int| 0 <= j < k ==> trimmed@[j]@ == spec_trim_mailbox(flat[j]),
        decreases mailboxes.len() - k,
    {
        proof {
            assert(flat[k as int] == mailboxes@[k as int]@);
        }
        trimmed.push(trim_mailbox(&mailboxes[k]));
        k = k + 1;
    }
    proof {
        assert(trimmed@.map_values(|m: MailboxAddr| m@) =~= flat.map_values(
            |m: MailboxAddrModel| spec_trim_mailbox(m),
        ));
    }
    let deduped = dedup_mailboxes(trimmed);
    let mut r: Vec<InternalRecipientStatus> = Vec::new();
    let ghost dv = deduped@.map_values(|m: MailboxAddr| m@);
    let mut i: usize = 0;
    while i < deduped.len()
        invariant
            dv == deduped@.map_values(|m: MailboxAddr| m@),
            dv.len() == deduped@.len(),
            0 <= i <= dv.len(),
            r@.len() == i,
            forall|j: int|
                0 <= j < i ==> r@[j]@ == initial_recipient(dv[j]),
        decreases deduped.len() - i,
    {
        proof {
            assert(dv[i as int] == deduped@[i as int]@);
        }
        let m = &deduped[i];
        r.push(
            InternalRecipientStatus {
                email_addr: m.display.clone(),
                smtp_email_addr: m.addr_spec.clone(),
                domain: m.domain.clone(),
                mx_servers: Option::None,
                current_mx: 0,
                result: DeliveryResult::Queued,
            },
        );
        i = i + 1;
    }
    proof {
        assert(r@.map_values(|x: InternalRecipientStatus| x@) =~= dv.map_values(
            |m: MailboxAddrModel| initial_recipient(m),
        ));
    }
    r
}

/// Flattening distributes over concatenation of entry lists.
proof fn lemma_flatten_entries_concat(a: Seq<AddressEntryModel>, b: Seq<AddressEntryModel>)
    ensures
        flatten_entries(a + b) == flatten_entries(a) + flatten_entries(b),
    decreases b.len(),
{
    if b.len() == 0 {
        assert(a + b =~= a);
        assert(flatten_entries(a) + flatten_entries(b) =~= flatten_entries(a));
    } else {
        lemma_flatten_entries_concat(a, b.drop_last());
        assert((a + b).drop_last() =~= a + b.drop_last());
        assert((a + b).last() == b.last());
        assert(flatten_entries(a) + (flatten_entries(b.drop_last()) + (match b.last() {
            AddressEntryModel::Single(m) => seq![m],
            AddressEntryModel::Group(g) => g,
        })) =~= (flatten_entries(a) + flatten_entries(b.drop_last())) + (match b.last() {
            AddressEntryModel::Single(m) => seq![m],
            AddressEntryModel::Group(g) => g,
        }));
    }
}

/// Forms the engine's message identifier: the header's `id-left@id-right`
/// when the message carries a Message-ID, else `unique@helo_name` from a
/// freshly generated unique part.
pub fn compose_message_id(
    parts: &Option<(String, String)>,
    unique: &String,
    helo_name: &str,
) -> (r: String)
    ensures
        parts matches Some(p) ==> r@ == p.0@ + "@"@ + p.1@,
        parts is None ==> r@ == unique@ + "@"@ + helo_name@,
{
    match parts {
        Option::Some(p) => {
            let mut s = p.0.clone();
            s.append("@");
            s.append(p.1.as_str());
            proof {
                assert(s@ =~= parts->Some_0.0@ + "@"@ + parts->Some_0.1@);
            }
            s
        },
        Option::None => {
            let mut s = unique.clone();
            s.append("@");
            s.append(helo_name);
            proof {
                assert(s@ =~= unique@ + "@"@ + helo_name@);
            }
            s
        },
    }
}

/// Turns a freshly submitted RFC 5322 message into a `PreparedEmail` and an
/// `InternalMessageStatus`.
///
/// On success: the recipients are the de-duplicated To+Cc+Bcc mailboxes,
/// each queued with 3 worker passes ahead of it; the envelope matches the
/// recipients; every envelope address passed the SMTP library's syntax
/// check; the message identifier is non-empty, of the form `left@right`;
/// and the byte image carries no `Bcc:` header line — checked here on the
/// bytes themselves, so a message whose malformed Bcc line survived the
/// clearing as an unrecognised field is rejected, as is a message without
/// a From header.
pub fn prepare_email(email: Email, helo_name: &str) -> (r: Result<
    (PreparedEmail, InternalMessageStatus),
    Error,
>)
    ensures
        r matches Ok(pair) ==> {
            &&& pair.1@.attempts_remaining == 3
            &&& pair.0@.message_id == pair.1@.message_id
            &&& pair.0@.message_id.len() > 0
            &&& pair.0@.message_id.contains('@')
            &&& pair.0@.to.len() == pair.1@.recipients.len()
            &&& forall|i: int|
                0 <= i < pair.1@.recipients.len() ==> {
                    &&& (#[trigger] pair.1@.recipients[i]).result is Queued
                    &&& pair.1@.recipients[i].mx_servers is None
                    &&& pair.1@.recipients[i].current_mx == 0
                    &&& pair.0@.to[i] == pair.1@.recipients[i].smtp_email_addr
                }
            &&& forall|i: int, j: int| 0 <= i < j < pair.0@.to.len() ==> pair.0@.to[i] != pair.0@.to[j]
            &&& valid_email_addr(pair.0@.from)
            &&& forall|i: int| 0 <= i < pair.0@.to.len() ==> valid_email_addr(#[trigger] pair.0@.to[i])
            &&& !has_bcc_header(pair.0@.message)
        },
        r matches Err(e) ==> (e is EmailParser || e is LettreEmailAddress),
{
    let mut email = email;
    let to = to_entries(&email);
    let cc = cc_entries(&email);
    let bcc = bcc_entries(&email);
    let recipients = build_recipients(&to, &cc, &bcc);
    clear_bcc_field(&mut email);
    proof {
        lemma_dedup_distinct(
            flatten_entries(
                to@.map_values(|e: AddressEntry| e@) + cc@.map_values(|e: AddressEntry| e@)
                    + bcc@.map_values(|e: AddressEntry| e@),
            ).map_values(|m: MailboxAddrModel| spec_trim_mailbox(m)),
        );
    }

    let parts = get_message_id_parts(&email);
    let generated = parts.is_none();
    let unique = new_uuid_hyphenated();
    let message_id = compose_message_id(&parts, &unique, helo_name);
    if generated {
        let mut wrapped = String::from_str("<");
        wrapped.append(message_id.as_str());
        wrapped.append(">");
        match set_message_id_str(&mut email, wrapped.as_str()) {
            Result::Ok(_) => {},
            Result::Err(e) => {
                return Result::Err(Error::EmailParser(e));
            },
        }
    }
    proof {
        reveal_strlit("@");
        match parts {
            Option::Some(p) => {
                assert(message_id@[p.0@.len() as int] == '@');
                assert(message_id@.contains('@'));
            },
            Option::None => {
                assert(message_id@[unique@.len() as int] == '@');
                assert(message_id@.contains('@'));
            },
        }
    }

    let message = render_message(&email);
    if message_has_bcc_header(&message) {
        return Result::Err(Error::EmailParser(String::from_str(
            "message carries a Bcc header line that could not be removed",
        )));
    }

    let from = match from_address(&email) {
        Option::Some(f) => f,
        Option::None => {
            return Result::Err(Error::EmailParser(String::from_str(
                "message carries no From header",
            )));
        },
    };

    match check_email_address(&from) {
        Result::Ok(_) => {},
        Result::Err(e) => {
            return Result::Err(Error::LettreEmailAddress(e));
        },
    }

    let mut to_addrs: Vec<String> = Vec::new();
    let mut i: usize = 0;
    while i < recipients.len()
        invariant
            0 <= i <= recipients@.len(),
            to_addrs@.len() == i,
            forall|j: int|
                0 <= j < i ==> to_addrs@[j]@ == recipients@[j]@.smtp_email_addr && valid_email_addr(
                    #[trigger] to_addrs@[j]@,
                ),
        decreases recipients.len() - i,
    {
        let addr = recipients[i].smtp_email_addr.clone();
        match check_email_address(&addr) {
            Result::Ok(_) => {},
            Result::Err(e) => {
                return Result::Err(Error::LettreEmailAddress(e));
            },
        }
        to_addrs.push(addr);
        i = i + 1;
    }

    let prepared = PreparedEmail {
        to: to_addrs,
        from,
        message_id: message_id.clone(),
        message,
    };
    let status = InternalMessageStatus { message_id, recipients, attempts_remaining: 3 };
    proof {
        assert forall|i: int|
            0 <= i < status@.recipients.len() implies {
            &&& (#[trigger] status@.recipients[i]).result is Queued
            &&& status@.recipients[i].mx_servers is None
            &&& status@.recipients[i].current_mx == 0
            &&& prepared@.to[i] == status@.recipients[i].smtp_email_addr
        } by {
            assert(status@.recipients[i] == status.recipients@[i]@);
            assert(prepared@.to[i] == prepared.to@[i]@);
        }
        assert forall|i: int, j: int|
            0 <= i < j < prepared@.to.len() implies prepared@.to[i] != prepared@.to[j] by {
            assert(prepared@.to[i] == status@.recipients[i].smtp_email_addr);
            assert(prepared@.to[j] == status@.recipients[j].smtp_email_addr);
        }
    }
    Result::Ok((prepared, status))
}

} // verus!
