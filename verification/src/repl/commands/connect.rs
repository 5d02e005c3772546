//! The `connect` command: from an id or an identifier to the address of a
//! peripheral of the scan list.

use vstd::prelude::*;
use crate::controllers::{BleError, BleErrorView, BlePeripheral, PeripheralView, ScanResultView,
    first_index, lemma_first_index, lemma_first_index_at, lemma_first_index_none};
use crate::controllers::btleplug::scan_list_of;
use crate::text::{parse_usize, parse_usize_spec, str_eq};

verus! {

/// The first position of the scan list whose peripheral has the id `id`, if any.
pub open spec fn find_id(s: Seq<PeripheralView>, id: usize) -> Option<int> {
    first_index(s.len() as int, |i: int| s[i].id == id)
}

/// The address (or UUID) that `connect --id id` connects to: that of the
/// first peripheral of the scan list with this id, else `IdNotFound`.
pub open spec fn by_index_spec(s: Seq<PeripheralView>, id: usize) -> Result<Seq<char>, BleErrorView> {
    match find_id(s, id) {
        Some(i) => Ok(s[i].address_uuid),
        None => Err(BleErrorView::IdNotFound),
    }
}

/// Looks up `id` in the scan list: the address (or UUID) of the first
/// peripheral with that id, or `IdNotFound`.
pub fn by_index(scan_list: &Vec<BlePeripheral>, id: usize) -> (r: Result<String, BleError>)
    ensures
        match r {
            Ok(a) => by_index_spec(scan_list.deep_view(), id) == Ok::<Seq<char>, BleErrorView>(a@),
            Err(e) => by_index_spec(scan_list.deep_view(), id) == Err::<Seq<char>, BleErrorView>(e@),
        },
{
    let ghost s = scan_list.deep_view();
    let ghost p = |i: int| s[i].id == id;
    let n = scan_list.len();
    let mut i: usize = 0;
    while i < n
        invariant
            n == scan_list.len(),
            s == scan_list.deep_view(),
            p == (|i: int| s[i].id == id),
            i <= n,
            forall|j: int| 0 <= j < i ==> !#[trigger] p(j),
        decreases n - i,
    {
        if scan_list[i].id == id {
            proof {
                lemma_first_index_at(n as int, p, i as int);
            }
            return Ok(scan_list[i].address_uuid.clone());
        }
        i = i + 1;
    }
    proof {
        lemma_first_index_none(n as int, p);
    }
    Err(BleError::IdNotFound)
}

/// A peripheral matches an identifier when the identifier is its name, its
/// address (or UUID), or its id written as a number.
pub open spec fn matches_identifier(p: PeripheralView, ident: Seq<char>) -> bool {
    p.name == ident || p.address_uuid == ident || parse_usize_spec(ident) == Some(p.id)
}

/// The first position of the scan list whose peripheral matches `ident`, if any.
pub open spec fn find_identifier(s: Seq<PeripheralView>, ident: Seq<char>) -> Option<int> {
    first_index(s.len() as int, |i: int| matches_identifier(s[i], ident))
}

/// The peripheral that `connect IDENTIFIER` connects to, by its id and its
/// address: the first of the scan list that matches the identifier, else
/// `IdentifierNotFound`.
pub open spec fn by_identifier_spec(s: Seq<PeripheralView>, ident: Seq<char>) -> Result<
    (usize, Seq<char>),
    BleErrorView,
> {
    match find_identifier(s, ident) {
        Some(i) => Ok((s[i].id, s[i].address_uuid)),
        None => Err(BleErrorView::IdentifierNotFound(ident)),
    }
}

/// Looks up an identifier in the scan list: the id and address (or UUID) of
/// the first peripheral whose name, address or id matches it, or `IdentifierNotFound`.
pub fn by_identifier(scan_list: &Vec<BlePeripheral>, ident: &str) -> (r: Result<(usize, String), BleError>)
    ensures
        match r {
            Ok((id, a)) => by_identifier_spec(scan_list.deep_view(), ident@) == Ok::<
                (usize, Seq<char>),
                BleErrorView,
            >((id, a@)),
            Err(e) => by_identifier_spec(scan_list.deep_view(), ident@) == Err::<
                (usize, Seq<char>),
                BleErrorView,
            >(e@),
        },
{
    let ghost s = scan_list.deep_view();
    let ghost p = |i: int| matches_identifier(s[i], ident@);
    let as_number = parse_usize(ident);
    let n = scan_list.len();
    let mut i: usize = 0;
    while i < n
        invariant
            n == scan_list.len(),
            s == scan_list.deep_view(),
            p == (|i: int| matches_identifier(s[i], ident@)),
            as_number == parse_usize_spec(ident@),
            i <= n,
            forall|j: int| 0 <= j < i ==> !#[trigger] p(j),
        decreases n - i,
    {
        let e = &scan_list[i];
        let by_number = match as_number {
            Some(k) => k == e.id,
            None => false,
        };
        if str_eq(e.name.as_str(), ident) || str_eq(e.address_uuid.as_str(), ident) || by_number {
            proof {
                lemma_first_index_at(n as int, p, i as int);
            }
            return Ok((e.id, e.address_uuid.clone()));
        }
        i = i + 1;
    }
    proof {
        lemma_first_index_none(n as int, p);
    }
    Err(BleError::IdentifierNotFound(ident.to_owned()))
}

/// After a scan, the id of a peripheral is its position in the scan list:
/// `connect --id id` reaches the `id`-th peripheral found, and fails with
/// `IdNotFound` exactly when the scan found fewer than `id + 1` peripherals.
pub proof fn lemma_by_index_after_scan(found: Seq<ScanResultView>, id: usize)
    requires
        found.len() <= usize::MAX,
    ensures
        by_index_spec(scan_list_of(found), id) == (if id < found.len() {
            Ok::<Seq<char>, BleErrorView>(found[id as int].address_uuid)
        } else {
            Err(BleErrorView::IdNotFound)
        }),
{
    let s = scan_list_of(found);
    let p = |i: int| s[i].id == id;
    if id < found.len() {
        assert forall|j: int| 0 <= j < id implies !#[trigger] p(j) by {
            assert(s[j].id == j);
        }
        lemma_first_index_at(s.len() as int, p, id as int);
    } else {
        assert forall|j: int| 0 <= j < s.len() implies !#[trigger] p(j) by {
            assert(s[j].id == j);
        }
        lemma_first_index_none(s.len() as int, p);
    }
}

/// `connect --id id` reaches the first peripheral of the scan list whose id is
/// `id`, at its address; it fails with `IdNotFound` exactly when no
/// peripheral of the list has that id.
pub proof fn lemma_by_index(s: Seq<PeripheralView>, id: usize)
    ensures
        by_index_spec(s, id) matches Ok(a) ==> exists|k: int|
            0 <= k < s.len() && s[k].id == id && s[k].address_uuid == a && forall|j: int|
                0 <= j < k ==> (#[trigger] s[j]).id != id,
        by_index_spec(s, id) is Err <==> forall|k: int| 0 <= k < s.len() ==> (#[trigger] s[k]).id != id,
        by_index_spec(s, id) matches Err(e) ==> e == BleErrorView::IdNotFound,
{
    let p = |i: int| s[i].id == id;
    lemma_first_index(s.len() as int, p);
    match first_index(s.len() as int, p) {
        Some(k) => {
            assert forall|j: int| 0 <= j < k implies (#[trigger] s[j]).id != id by {
                assert(!p(j));
            }
        },
        None => {
            assert forall|k: int| 0 <= k < s.len() implies (#[trigger] s[k]).id != id by {
                assert(!p(k));
            }
        },
    }
}

/// Whether a peripheral's name, address (or UUID) or id equals an identifier,
/// written out field by field.
spec fn names_identifier(p: PeripheralView, ident: Seq<char>) -> bool {
    p.name == ident || p.address_uuid == ident || parse_usize_spec(ident) == Some(p.id)
}

/// `connect IDENTIFIER` reaches the first peripheral of the scan list whose
/// name equals the identifier, or whose address (or UUID) equals it, or whose
/// id is the identifier read as a number; it fails with
/// `IdentifierNotFound(identifier)` exactly when no peripheral of the list is
/// such.
pub proof fn lemma_by_identifier(s: Seq<PeripheralView>, ident: Seq<char>)
    ensures
        by_identifier_spec(s, ident) matches Ok((id, a)) ==> exists|k: int|
            0 <= k < s.len() && s[k].id == id && s[k].address_uuid == a && (s[k].name == ident
                || s[k].address_uuid == ident || parse_usize_spec(ident) == Some(s[k].id))
                && forall|j: int|
                0 <= j < k ==> !((#[trigger] s[j]).name == ident || s[j].address_uuid == ident
                    || parse_usize_spec(ident) == Some(s[j].id)),
        by_identifier_spec(s, ident) is Err <==> forall|k: int|
            0 <= k < s.len() ==> !((#[trigger] s[k]).name == ident || s[k].address_uuid == ident
                || parse_usize_spec(ident) == Some(s[k].id)),
        by_identifier_spec(s, ident) matches Err(e) ==> e == BleErrorView::IdentifierNotFound(ident),
{
    let p = |i: int| matches_identifier(s[i], ident);
    lemma_first_index(s.len() as int, p);
    match first_index(s.len() as int, p) {
        Some(k) => {
            assert(names_identifier(s[k], ident));
            assert forall|j: int| 0 <= j < k implies !((#[trigger] s[j]).name == ident
                || s[j].address_uuid == ident || parse_usize_spec(ident) == Some(s[j].id)) by {
                assert(!p(j));
            }
        },
        None => {
            assert forall|k: int| 0 <= k < s.len() implies !((#[trigger] s[k]).name == ident
                || s[k].address_uuid == ident || parse_usize_spec(ident) == Some(s[k].id)) by {
                assert(!p(k));
            }
        },
    }
}

} // verus!
