//! MX resolution: turning a recipient domain into an ordered list of
//! exchange host names.
//!
//! The order is: records sorted by preference ascending (stable), then a
//! stable pass that pushes IP-literal exchanges to the end (host names can
//! be checked against TLS certificates, IP literals cannot), then each
//! exchange stripped of its trailing root dot.  When the query fails or
//! returns no records, the domain itself is the implicit MX (RFC 5321).

use vstd::prelude::*;
use vstd::string::StrSliceExecFns;
use crate::recipient_status::InternalRecipientStatus;
use crate::message_status::InternalMessageStatus;
use trust_dns_resolver::Resolver;

verus! {

/// The DNS resolver of the `trust_dns_resolver` crate; opaque to the
/// verified code, which only hands it to `mx_lookup`.
#[verifier::external_type_specification]
#[verifier::external_body]
pub struct ExResolver(Resolver);

/// Relies on `trust_dns_resolver::Resolver::mx_lookup`: issues one MX query
/// and returns each answer record's preference and exchange name (the name
/// in its fully-qualified form, usually with a trailing root dot).  The
/// answer depends on the network, so nothing is promised of it; `None`
/// stands for any resolver error.
#[verifier::external_body]
fn mx_lookup(resolver: &Resolver, domain: &str) -> (r: Option<Vec<(u16, String)>>) {
    match resolver.mx_lookup(domain) {
        Ok(response) => Some(
            response.iter().map(|mx| (mx.preference(), mx.exchange().to_string())).collect(),
        ),
        Err(_) => None,
    }
}

/// Whether a character is a decimal digit.
pub open spec fn spec_is_ascii_digit(c: char) -> bool {
    48 <= c as u32 && c as u32 <= 57
}

/// Whether a string's last character is an ASCII digit.
pub open spec fn spec_is_ip(s: Seq<char>) -> bool {
    s.len() > 0 && spec_is_ascii_digit(s.last())
}

/// Whether the last character of a string is an ASCII digit.  A bare
/// IP-literal (IPv4, or IPv6 without brackets) ends in one.
pub fn is_ip(s: &str) -> (r: bool)
    ensures
        r == spec_is_ip(s@),
{
    let n = s.unicode_len();
    if n == 0 {
        false
    } else {
        let c = s.get_char(n - 1);
        48 <= c as u32 && c as u32 <= 57
    }
}

/// A string with its trailing dots removed.
pub open spec fn strip_trailing_dots(s: Seq<char>) -> Seq<char>
    decreases s.len(),
{
    if s.len() > 0 && s.last() == '.' {
        strip_trailing_dots(s.drop_last())
    } else {
        s
    }
}

/// Whether an exchange name is in IP-literal form: after ignoring a trailing
/// root dot and a closing bracket, its last character is an ASCII digit.
/// This covers "192.0.2.1", "[192.0.2.1]" and their dot-terminated forms.
pub open spec fn spec_ip_literal(s: Seq<char>) -> bool {
    let t = strip_trailing_dots(s);
    let u = if t.len() > 0 && t.last() == ']' {
        t.drop_last()
    } else {
        t
    };
    spec_is_ip(u)
}

/// Finds the length of `s` once trailing dots are dropped; on return,
/// `s@.take(r)` is `strip_trailing_dots(s@)`.
fn trailing_dots_cut(s: &str) -> (r: usize)
    ensures
        r <= s@.len(),
        s@.take(r as int) == strip_trailing_dots(s@),
{
    let n = s.unicode_len();
    let mut j: usize = n;
    proof {
        assert(s@.take(n as int) =~= s@);
    }
    while j > 0 && s.get_char(j - 1) == '.'
        invariant
            0 <= j <= n,
            n == s@.len(),
            strip_trailing_dots(s@.take(j as int)) == strip_trailing_dots(s@),
        decreases j,
    {
        proof {
            assert(s@.take(j as int).drop_last() =~= s@.take(j - 1));
            assert(s@.take(j as int).last() == s@[j - 1]);
        }
        j = j - 1;
    }
    proof {
        if j > 0 {
            assert(s@.take(j as int).last() == s@[j - 1]);
        }
        assert(s@.take(j as int) == strip_trailing_dots(s@.take(j as int)));
    }
    j
}

/// Whether an exchange name is in IP-literal form.
pub fn is_ip_literal(s: &str) -> (r: bool)
    ensures
        r == spec_ip_literal(s@),
{
    let mut j = trailing_dots_cut(s);
    let ghost t = strip_trailing_dots(s@);
    if j > 0 && s.get_char(j - 1) == ']' {
        proof {
            assert(t.last() == s@[j - 1]);
            assert(t.drop_last() =~= s@.take(j - 1));
        }
        j = j - 1;
    } else {
        proof {
            if t.len() > 0 {
                assert(t.last() == s@[j - 1]);
            }
        }
    }
    if j > 0 {
        let c = s.get_char(j - 1);
        proof {
            assert(s@.take(j as int).last() == s@[j - 1]);
        }
        48 <= c as u32 && c as u32 <= 57
    } else {
        false
    }
}

/// A string with its trailing dots removed.
pub fn strip_dots(s: &str) -> (r: String)
    ensures
        r@ == strip_trailing_dots(s@),
{
    let j = trailing_dots_cut(s);
    s.substring_char(0, j).to_owned()
}

/// Stable insertion of an MX record into a preference-sorted list: the
/// record goes after every record of equal or smaller preference.
pub open spec fn insert_by_pref(s: Seq<(u16, Seq<char>)>, x: (u16, Seq<char>)) -> Seq<
    (u16, Seq<char>),
>
    decreases s.len(),
{
    if s.len() > 0 && x.0 < s.last().0 {
        insert_by_pref(s.drop_last(), x).push(s.last())
    } else {
        s.push(x)
    }
}

/// Stable sort of MX records by preference ascending.
pub open spec fn sort_by_pref(s: Seq<(u16, Seq<char>)>) -> Seq<(u16, Seq<char>)>
    decreases s.len(),
{
    if s.len() == 0 {
        Seq::empty()
    } else {
        insert_by_pref(sort_by_pref(s.drop_last()), s.last())
    }
}

/// Non-decreasing preferences.
pub open spec fn sorted_by_pref(s: Seq<(u16, Seq<char>)>) -> bool {
    forall|i: int, j: int| 0 <= i < j < s.len() ==> s[i].0 <= s[j].0
}

proof fn lemma_insert_by_pref_sorted(s: Seq<(u16, Seq<char>)>, x: (u16, Seq<char>))
    requires
        sorted_by_pref(s),
    ensures
        sorted_by_pref(insert_by_pref(s, x)),
        insert_by_pref(s, x).len() == s.len() + 1,
    decreases s.len(),
{
    if s.len() > 0 && x.0 < s.last().0 {
        assert(sorted_by_pref(s.drop_last()));
        lemma_insert_by_pref_sorted(s.drop_last(), x);
        let r = insert_by_pref(s.drop_last(), x).push(s.last());
        assert forall|i: int, j: int| 0 <= i < j < r.len() implies r[i].0 <= r[j].0 by {
            if j < r.len() - 1 {
            } else {
                lemma_insert_by_pref_elements(s.drop_last(), x, i);
            }
        }
    }
}

/// Every element of `insert_by_pref(s, x)` is `x` or an element of `s`, and
/// its preference is at most `max(x.0, last of s)`.
proof fn lemma_insert_by_pref_elements(s: Seq<(u16, Seq<char>)>, x: (u16, Seq<char>), i: int)
    requires
        sorted_by_pref(s),
        0 <= i < insert_by_pref(s, x).len(),
    ensures
        insert_by_pref(s, x)[i] == x || s.contains(insert_by_pref(s, x)[i]),
    decreases s.len(),
{
    if s.len() > 0 && x.0 < s.last().0 {
        assert(sorted_by_pref(s.drop_last()));
        if i < insert_by_pref(s, x).len() - 1 {
            lemma_insert_by_pref_elements(s.drop_last(), x, i);
            if s.drop_last().contains(insert_by_pref(s, x)[i]) {
                let k = choose|k: int|
                    0 <= k < s.drop_last().len() && s.drop_last()[k] == insert_by_pref(s, x)[i];
                assert(s[k] == insert_by_pref(s, x)[i]);
            }
        } else {
            assert(insert_by_pref(s, x)[i] == s.last());
            assert(s.contains(s.last()));
        }
    } else {
        if i < s.len() {
            assert(s.contains(insert_by_pref(s, x)[i]));
        }
    }
}

/// Inserting into a sorted list at the first position whose preference is
/// strictly greater gives exactly `insert_by_pref`.
proof fn lemma_insert_by_pref_split(s: Seq<(u16, Seq<char>)>, x: (u16, Seq<char>), k: int)
    requires
        0 <= k <= s.len(),
        forall|i: int| k <= i < s.len() ==> s[i].0 > x.0,
        forall|i: int| 0 <= i < k ==> s[i].0 <= x.0,
    ensures
        insert_by_pref(s, x) == s.take(k) + seq![x] + s.skip(k),
    decreases s.len(),
{
    if k == s.len() {
        assert(insert_by_pref(s, x) == s.push(x));
        assert(s.take(k) + seq![x] + s.skip(k) =~= s.push(x));
    } else {
        assert(s[s.len() - 1].0 > x.0);
        assert(insert_by_pref(s, x) == insert_by_pref(s.drop_last(), x).push(s.last()));
        lemma_insert_by_pref_split(s.drop_last(), x, k);
        assert(s.drop_last().take(k) =~= s.take(k));
        assert(s.drop_last().skip(k).push(s.last()) =~= s.skip(k));
        assert((s.take(k) + seq![x] + s.drop_last().skip(k)).push(s.last()) =~= s.take(k)
            + seq![x] + s.skip(k));
    }
}

/// The view of a record vector.
pub open spec fn recs_view(v: Seq<(u16, String)>) -> Seq<(u16, Seq<char>)> {
    v.map_values(|p: (u16, String)| (p.0, p.1@))
}

/// Inserts a record into a preference-sorted vector, after every record of
/// equal or smaller preference.
fn insert_record(v: &mut Vec<(u16, String)>, x: (u16, String))
    requires
        sorted_by_pref(recs_view(old(v)@)),
    ensures
        recs_view(final(v)@) == insert_by_pref(recs_view(old(v)@), (x.0, x.1@)),
        sorted_by_pref(recs_view(final(v)@)),
{
    let ghost pre = recs_view(v@);
    let ghost xv = (x.0, x.1@);
    let mut k: usize = 0;
    while k < v.len() && v[k].0 <= x.0
        invariant
            0 <= k <= pre.len(),
            recs_view(v@) == pre,
            pre == recs_view(old(v)@),
            sorted_by_pref(pre),
            forall|i: int| 0 <= i < k ==> pre[i].0 <= x.0,
        decreases v.len() - k,
    {
        proof {
            assert(pre[k as int].0 == v@[k as int].0);
        }
        k = k + 1;
    }
    proof {
        assert(forall|i: int| k <= i < pre.len() ==> pre[i].0 > xv.0) by {
            assert forall|i: int| k <= i < pre.len() implies pre[i].0 > xv.0 by {
                if i == k {
                    assert(pre[k as int].0 == v@[k as int].0);
                } else {
                    assert(pre[k as int].0 <= pre[i].0);
                    assert(pre[k as int].0 == v@[k as int].0);
                }
            }
        }
    }
    v.insert(k, x);
    proof {
        lemma_insert_by_pref_split(pre, xv, k as int);
        assert(recs_view(v@) =~= pre.take(k as int) + seq![xv] + pre.skip(k as int));
        lemma_insert_by_pref_sorted(pre, xv);
    }
}

/// Stable-sorts MX records by preference ascending.
pub fn sort_records(records: Vec<(u16, String)>) -> (r: Vec<(u16, String)>)
    ensures
        recs_view(r@) == sort_by_pref(recs_view(records@)),
        sorted_by_pref(recs_view(r@)),
{
    let ghost full = recs_view(records@);
    let mut out: Vec<(u16, String)> = Vec::new();
    let mut i: usize = 0;
    proof {
        assert(recs_view(out@) =~= Seq::<(u16, Seq<char>)>::empty());
        assert(full.take(0) =~= Seq::<(u16, Seq<char>)>::empty());
    }
    while i < records.len()
        invariant
            0 <= i <= records@.len(),
            full == recs_view(records@),
            full.len() == records@.len(),
            recs_view(out@) == sort_by_pref(full.take(i as int)),
            sorted_by_pref(recs_view(out@)),
        decreases records.len() - i,
    {
        let x: (u16, String) = (records[i].0, records[i].1.clone());
        proof {
            assert((x.0, x.1@) == full[i as int]);
            assert(full.take(i + 1).drop_last() =~= full.take(i as int));
            assert(full.take(i + 1).last() == full[i as int]);
        }
        insert_record(&mut out, x);
        i = i + 1;
    }
    proof {
        assert(full.take(full.len() as int) =~= full);
    }
    out
}

/// The stable pass that pushes IP-literal exchanges to the end: the records
/// that are not IP literals, in order, then those that are, in order.
pub open spec fn demote_ip_literals(s: Seq<(u16, Seq<char>)>) -> Seq<(u16, Seq<char>)> {
    s.filter(|p: (u16, Seq<char>)| !spec_ip_literal(p.1)) + s.filter(
        |p: (u16, Seq<char>)| spec_ip_literal(p.1),
    )
}

proof fn lemma_demote_len(s: Seq<(u16, Seq<char>)>)
    ensures
        demote_ip_literals(s).len() == s.len(),
    decreases s.len(),
{
    reveal(Seq::filter);
    if s.len() > 0 {
        lemma_demote_len(s.drop_last());
    }
}

proof fn lemma_sort_by_pref_len(s: Seq<(u16, Seq<char>)>)
    ensures
        sort_by_pref(s).len() == s.len(),
        sorted_by_pref(sort_by_pref(s)),
    decreases s.len(),
{
    if s.len() > 0 {
        lemma_sort_by_pref_len(s.drop_last());
        lemma_insert_by_pref_sorted(sort_by_pref(s.drop_last()), s.last());
    }
}

/// Reorders sorted records so that IP-literal exchanges come last, keeping
/// the relative order of each group.
fn demote_ip_records(records: Vec<(u16, String)>) -> (r: Vec<(u16, String)>)
    ensures
        recs_view(r@) == demote_ip_literals(recs_view(records@)),
{
    let ghost full = recs_view(records@);
    let ghost ip_pred = |p: (u16, Seq<char>)| spec_ip_literal(p.1);
    let ghost name_pred = |p: (u16, Seq<char>)| !spec_ip_literal(p.1);
    let mut names: Vec<(u16, String)> = Vec::new();
    let mut ips: Vec<(u16, String)> = Vec::new();
    let mut i: usize = 0;
    proof {
        assert(full.take(0) =~= Seq::<(u16, Seq<char>)>::empty());
        assert(recs_view(names@) =~= Seq::<(u16, Seq<char>)>::empty());
        assert(recs_view(ips@) =~= Seq::<(u16, Seq<char>)>::empty());
        reveal_with_fuel(Seq::filter, 1);
    }
    while i < records.len()
        invariant
            0 <= i <= records@.len(),
            full == recs_view(records@),
            full.len() == records@.len(),
            recs_view(names@) == full.take(i as int).filter(name_pred),
            recs_view(ips@) == full.take(i as int).filter(ip_pred),
            name_pred == (|p: (u16, Seq<char>)| !spec_ip_literal(p.1)),
            ip_pred == (|p: (u16, Seq<char>)| spec_ip_literal(p.1)),
        decreases records.len() - i,
    {
        let ghost prefix = full.take(i as int);
        proof {
            assert(full.take(i + 1) =~= prefix.push(full[i as int]));
            prefix.lemma_filter_push(full[i as int], name_pred);
            prefix.lemma_filter_push(full[i as int], ip_pred);
            assert((full[i as int]).1 == records@[i as int].1@);
        }
        let x: (u16, String) = (records[i].0, records[i].1.clone());
        if is_ip_literal(x.1.as_str()) {
            ips.push(x);
            proof {
                assert(recs_view(ips@) =~= prefix.filter(ip_pred).push(full[i as int]));
            }
        } else {
            names.push(x);
            proof {
                assert(recs_view(names@) =~= prefix.filter(name_pred).push(full[i as int]));
            }
        }
        i = i + 1;
    }
    proof {
        assert(full.take(full.len() as int) =~= full);
    }
    let mut r = names;
    let ghost names_view = recs_view(r@);
    let mut j: usize = 0;
    while j < ips.len()
        invariant
            0 <= j <= ips@.len(),
            recs_view(ips@) == full.filter(ip_pred),
            names_view == full.filter(name_pred),
            recs_view(r@) == names_view + recs_view(ips@).take(j as int),
            ip_pred == (|p: (u16, Seq<char>)| spec_ip_literal(p.1)),
            name_pred == (|p: (u16, Seq<char>)| !spec_ip_literal(p.1)),
        decreases ips.len() - j,
    {
        let x: (u16, String) = (ips[j].0, ips[j].1.clone());
        let ghost rprev = recs_view(r@);
        let ghost xview = (x.0, x.1@);
        proof {
            assert(xview == recs_view(ips@)[j as int]);
        }
        r.push(x);
        proof {
            assert(recs_view(r@) =~= rprev.push(xview));
            assert(recs_view(ips@).take(j + 1) =~= recs_view(ips@).take(j as int).push(
                recs_view(ips@)[j as int],
            ));
            assert(rprev.push(xview) =~= names_view + recs_view(ips@).take(j + 1));
        }
        j = j + 1;
    }
    proof {
        assert(recs_view(ips@).take(recs_view(ips@).len() as int) =~= recs_view(ips@));
        assert(recs_view(r@) =~= demote_ip_literals(full));
    }
    r
}

/// The exchange host names of a list of MX records, in the delivery order
/// the engine uses: sorted by preference (stable), IP literals last, and
/// each name stripped of its trailing root dot.
pub open spec fn ordered_exchanges(recs: Seq<(u16, Seq<char>)>) -> Seq<Seq<char>> {
    demote_ip_literals(sort_by_pref(recs)).map_values(
        |p: (u16, Seq<char>)| strip_trailing_dots(p.1),
    )
}

/// Orders MX records for delivery.  An empty record list falls back to the
/// domain itself as the implicit MX (RFC 5321).
pub fn order_mx_records(domain: &str, records: Vec<(u16, String)>) -> (r: Vec<String>)
    ensures
        records@.len() == 0 ==> r@.map_values(|s: String| s@) == seq![domain@],
        records@.len() > 0 ==> r@.map_values(|s: String| s@) == ordered_exchanges(
            recs_view(records@),
        ),
        r@.len() >= 1,
{
    if records.len() == 0 {
        let mut r: Vec<String> = Vec::new();
        r.push(domain.to_owned());
        proof {
            assert(r@.map_values(|s: String| s@) =~= seq![domain@]);
        }
        return r;
    }
    let ghost full = recs_view(records@);
    let sorted = sort_records(records);
    let demoted = demote_ip_records(sorted);
    proof {
        lemma_sort_by_pref_len(full);
        lemma_demote_len(sort_by_pref(full));
    }
    let mut r: Vec<String> = Vec::new();
    let mut i: usize = 0;
    while i < demoted.len()
        invariant
            0 <= i <= demoted@.len(),
            recs_view(demoted@) == demote_ip_literals(sort_by_pref(full)),
            recs_view(demoted@).len() == demoted@.len(),
            r@.len() == i,
            forall|k: int|
                0 <= k < i ==> r@[k]@ == strip_trailing_dots(recs_view(demoted@)[k].1),
        decreases demoted.len() - i,
    {
        proof {
            assert(recs_view(demoted@)[i as int].1 == demoted@[i as int].1@);
        }
        r.push(strip_dots(demoted[i].1.as_str()));
        i = i + 1;
    }
    proof {
        assert(r@.map_values(|s: String| s@) =~= ordered_exchanges(full));
    }
    r
}

/// The only shapes a resolved exchange list can take: the RFC 5321
/// fallback (the domain itself), or the delivery order of some non-empty
/// record list.
pub open spec fn resolved_shape(l: Seq<Seq<char>>, domain: Seq<char>) -> bool {
    l == seq![domain] || exists|recs: Seq<(u16, Seq<char>)>|
        recs.len() > 0 && l == ordered_exchanges(recs)
}

/// Resolves the ordered MX exchange list for one domain.  Whatever the
/// query returned, the result is the RFC 5321 fallback (the domain itself)
/// or the delivery order of some record list; it is never empty.
pub fn get_mx_records_for_domain(domain: &str, resolver: &Resolver) -> (r: Vec<String>)
    ensures
        r@.len() >= 1,
        resolved_shape(r@.map_values(|s: String| s@), domain@),
{
    match mx_lookup(resolver, domain) {
        Option::None => {
            let empty: Vec<(u16, String)> = Vec::new();
            order_mx_records(domain, empty)
        },
        Option::Some(records) => {
            let ghost recs = recs_view(records@);
            let r = order_mx_records(domain, records);
            proof {
                if recs.len() > 0 {
                    assert(recs.len() > 0 && r@.map_values(|s: String| s@) == ordered_exchanges(
                        recs,
                    ));
                }
            }
            r
        },
    }
}

/// Two recipient models that agree on everything but the MX server list.
pub open spec fn same_but_mx(
    a: crate::recipient_status::RecipientStatusModel,
    b: crate::recipient_status::RecipientStatusModel,
) -> bool {
    &&& a.email_addr == b.email_addr
    &&& a.smtp_email_addr == b.smtp_email_addr
    &&& a.domain == b.domain
    &&& a.current_mx == b.current_mx
    &&& a.result == b.result
}

/// Resolves MX records for every recipient that does not have them yet;
/// recipients whose lists are already resolved are left alone, and each
/// freshly resolved list is non-empty and of the shape resolution gives:
/// the recipient's own domain, or the delivery order of some record list.
pub fn get_mx_records_for_email(status: &mut InternalMessageStatus, resolver: &Resolver)
    ensures
        final(status)@.message_id == old(status)@.message_id,
        final(status)@.attempts_remaining == old(status)@.attempts_remaining,
        final(status)@.recipients.len() == old(status)@.recipients.len(),
        forall|i: int|
            0 <= i < old(status)@.recipients.len() ==> {
                &&& old(status)@.recipients[i].mx_servers is Some ==> final(status)@.recipients[i]
                    == old(status)@.recipients[i]
                &&& old(status)@.recipients[i].mx_servers is None ==> {
                    &&& same_but_mx(final(status)@.recipients[i], old(status)@.recipients[i])
                    &&& final(status)@.recipients[i].mx_servers matches Some(l) && l.len() >= 1
                        && resolved_shape(l, old(status)@.recipients[i].domain)
                }
            },
{
    let ghost pre = status@;
    let mut recipients: Vec<InternalRecipientStatus> = Vec::new();
    let mut i: usize = 0;
    while i < status.recipients.len()
        invariant
            0 <= i <= status.recipients@.len(),
            status@ == pre,
            pre.recipients.len() == status.recipients@.len(),
            recipients@.len() == i,
            forall|j: int|
                0 <= j < i ==> {
                    &&& pre.recipients[j].mx_servers is Some ==> recipients@[j]@
                        == pre.recipients[j]
                    &&& pre.recipients[j].mx_servers is None ==> {
                        &&& same_but_mx(recipients@[j]@, pre.recipients[j])
                        &&& recipients@[j]@.mx_servers matches Some(l) && l.len() >= 1
                            && resolved_shape(l, pre.recipients[j].domain)
                    }
                },
        decreases status.recipients.len() - i,
    {
        proof {
            assert(pre.recipients[i as int] == status.recipients@[i as int]@);
        }
        let rec = &status.recipients[i];
        match &rec.mx_servers {
            Option::Some(_) => {
                recipients.push(rec.clone());
            },
            Option::None => {
                let mx_records = get_mx_records_for_domain(rec.domain.as_str(), resolver);
                let updated = InternalRecipientStatus {
                    email_addr: rec.email_addr.clone(),
                    smtp_email_addr: rec.smtp_email_addr.clone(),
                    domain: rec.domain.clone(),
                    mx_servers: Option::Some(mx_records),
                    current_mx: rec.current_mx,
                    result: rec.result.clone(),
                };
                recipients.push(updated);
            },
        }
        i = i + 1;
    }
    status.recipients = recipients;
    proof {
        assert(final(status)@.recipients.len() == pre.recipients.len());
        assert forall|i: int| 0 <= i < pre.recipients.len() implies {
            &&& pre.recipients[i].mx_servers is Some ==> final(status)@.recipients[i]
                == pre.recipients[i]
            &&& pre.recipients[i].mx_servers is None ==> {
                &&& same_but_mx(final(status)@.recipients[i], pre.recipients[i])
                &&& final(status)@.recipients[i].mx_servers matches Some(l) && l.len() >= 1
                    && resolved_shape(l, pre.recipients[i].domain)
            }
        } by {
            assert(final(status)@.recipients[i] == final(status).recipients@[i]@);
        }
    }
}

} // verus!

