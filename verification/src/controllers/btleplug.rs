//! The state of the btleplug controller: the scan list of the last scan, the
//! connected peripheral, and whether its notifications are being followed.
//!
//! The radio work (scanning, connecting, following notifications) is done by
//! the program around this library; it hands the results here, and the
//! controller keeps the state that they lead to.

use vstd::prelude::*;
use super::{BleController, BleError, BleErrorView, BlePeripheral, PeripheralView, ScanResult,
    ScanResultView, copy_peripheral, first_index, lemma_first_index, lemma_first_index_at,
    lemma_first_index_none};
use crate::text::str_eq;

verus! {

/// The state of a BLE controller.
pub struct BtleplugController {
    scan_list: Vec<BlePeripheral>,
    peripheral: Option<String>,
    notifications_thread_running: bool,
}

/// The mathematical value of a [`BtleplugController`]: the scan list, the
/// address (or UUID) of the connected peripheral, if any, and whether its
/// notifications are followed.
pub struct ControllerView {
    pub scan_list: Seq<PeripheralView>,
    pub peripheral: Option<Seq<char>>,
    pub notifications_running: bool,
}

impl View for BtleplugController {
    type V = ControllerView;

    closed spec fn view(&self) -> ControllerView {
        ControllerView {
            scan_list: self.scan_list.deep_view(),
            peripheral: self.peripheral.deep_view(),
            notifications_running: self.notifications_thread_running,
        }
    }
}

/// The name a scan list shows for a peripheral: the one it advertises, else `unknown`.
pub open spec fn name_or_unknown(local_name: Option<Seq<char>>) -> Seq<char> {
    match local_name {
        Some(n) => n,
        None => "unknown"@,
    }
}

/// The scan list that a scan with these results gives: the peripherals in
/// the order found, each with its position as id.
pub open spec fn scan_list_of(found: Seq<ScanResultView>) -> Seq<PeripheralView> {
    Seq::new(
        found.len(),
        |i: int|
            PeripheralView {
                id: i as usize,
                name: name_or_unknown(found[i].local_name),
                address_uuid: found[i].address_uuid,
            },
    )
}

/// Every peripheral of the list has its position as id.
pub open spec fn ids_are_positions(s: Seq<PeripheralView>) -> bool {
    forall|i: int| 0 <= i < s.len() ==> (#[trigger] s[i]).id == i
}

/// A controller with no scan and no connection.
pub open spec fn initial_state() -> ControllerView {
    ControllerView { scan_list: Seq::empty(), peripheral: None, notifications_running: false }
}

/// The state after a scan with these results.
pub open spec fn after_scan(v: ControllerView, found: Seq<ScanResultView>) -> ControllerView {
    ControllerView { scan_list: scan_list_of(found), ..v }
}

/// The state after a connection to the peripheral at `address_uuid`: it is
/// the connected one, and its notifications are followed.
pub open spec fn after_connect(v: ControllerView, address_uuid: Seq<char>) -> ControllerView {
    ControllerView { peripheral: Some(address_uuid), notifications_running: true, ..v }
}

/// The first step of a disconnection: with a peripheral connected, its
/// notifications stop being followed and its address is handed out for the
/// disconnection itself; with none, an error, and the state stays as it was.
pub open spec fn begin_disconnect_spec(v: ControllerView) -> (ControllerView, Result<
    Seq<char>,
    BleErrorView,
>) {
    match v.peripheral {
        Some(a) => (ControllerView { notifications_running: false, ..v }, Ok(a)),
        None => (v, Err(BleErrorView::NotConnectedToDisconnect)),
    }
}

/// The state once a disconnection is over: no peripheral is connected, and
/// no notifications are followed.
pub open spec fn after_disconnect(v: ControllerView) -> ControllerView {
    ControllerView { peripheral: None, notifications_running: false, ..v }
}

/// What holds of every controller: ids are positions in the scan list, and
/// notifications are followed only while a peripheral is connected.
pub open spec fn well_formed(v: ControllerView) -> bool {
    &&& ids_are_positions(v.scan_list)
    &&& (v.notifications_running ==> v.peripheral is Some)
}

impl BtleplugController {
    #[verifier::type_invariant]
    spec fn inv(self) -> bool {
        well_formed(self@)
    }

    /// A controller with an empty scan list and no connection.
    pub fn new() -> (c: Self)
        ensures
            c@ == initial_state(),
            well_formed(c@),
    {
        let c = BtleplugController {
            scan_list: Vec::new(),
            peripheral: None,
            notifications_thread_running: false,
        };
        assert(c@.scan_list =~= Seq::<PeripheralView>::empty());
        c
    }

    /// Keeps the results of a scan as the new scan list: the peripherals in
    /// the order found, numbered from 0, each named by the name it advertises
    /// or `unknown`. The connection is left as it was.
    pub fn record_scan(&mut self, found: Vec<ScanResult>)
        ensures
            final(self)@ == after_scan(old(self)@, found.deep_view()),
            well_formed(final(self)@),
    {
        proof {
            use_type_invariant(&*self);
        }
        let ghost spec_list = scan_list_of(found.deep_view());
        let mut list: Vec<BlePeripheral> = Vec::new();
        let n = found.len();
        let mut i: usize = 0;
        while i < n
            invariant
                n == found.len(),
                i <= n,
                spec_list == scan_list_of(found.deep_view()),
                list.len() == i,
                forall|j: int| 0 <= j < i ==> #[trigger] list@[j].deep_view() == spec_list[j],
            decreases n - i,
        {
            let name = match &found[i].local_name {
                Some(s) => s.clone(),
                None => "unknown".to_owned(),
            };
            let p = BlePeripheral { id: i, name, address_uuid: found[i].address_uuid.clone() };
            assert(p.deep_view() == spec_list[i as int]);
            list.push(p);
            i = i + 1;
        }
        assert(list.deep_view() =~= spec_list);
        self.scan_list = list;
        proof {
            use_type_invariant(&*self);
        }
    }

    /// Whether the notifications of the connected peripheral are followed.
    pub fn notifications_running(&self) -> (r: bool)
        ensures
            r == self@.notifications_running,
            well_formed(self@),
    {
        proof {
            use_type_invariant(self);
        }
        self.notifications_thread_running
    }

    /// Keeps `address_uuid` as the connected peripheral, once the connection
    /// is made, and marks its notifications as followed.
    pub fn mark_connected(&mut self, address_uuid: String)
        ensures
            final(self)@ == after_connect(old(self)@, address_uuid@),
            well_formed(final(self)@),
    {
        proof {
            use_type_invariant(&*self);
        }
        self.peripheral = Some(address_uuid);
        self.notifications_thread_running = true;
        proof {
            use_type_invariant(&*self);
        }
    }

    /// Starts a disconnection: the address (or UUID) of the connected
    /// peripheral, whose notifications stop being followed; or
    /// `NotConnectedToDisconnect`, with the state unchanged, when none is connected.
    pub fn begin_disconnect(&mut self) -> (r: Result<String, BleError>)
        ensures
            (final(self)@, match r {
                Ok(a) => Ok(a@),
                Err(e) => Err(e@),
            }) == begin_disconnect_spec(old(self)@),
            well_formed(final(self)@),
    {
        proof {
            use_type_invariant(&*self);
        }
        let r = match &self.peripheral {
            Some(a) => {
                let a = a.clone();
                self.notifications_thread_running = false;
                Ok(a)
            },
            None => Err(BleError::NotConnectedToDisconnect),
        };
        proof {
            use_type_invariant(&*self);
        }
        r
    }

    /// Ends a disconnection: no peripheral is connected any more.
    pub fn finish_disconnect(&mut self)
        ensures
            final(self)@ == after_disconnect(old(self)@),
            well_formed(final(self)@),
    {
        proof {
            use_type_invariant(&*self);
        }
        self.notifications_thread_running = false;
        self.peripheral = None;
        proof {
            use_type_invariant(&*self);
        }
    }
}

impl BleController for BtleplugController {
    /// A copy of the scan list of the last scan.
    fn get_scan_list(&self) -> (r: Vec<BlePeripheral>)
        ensures
            r.deep_view() == self@.scan_list,
            well_formed(self@),
    {
        proof {
            use_type_invariant(self);
        }
        let mut out: Vec<BlePeripheral> = Vec::new();
        let n = self.scan_list.len();
        let mut i: usize = 0;
        while i < n
            invariant
                n == self.scan_list.len(),
                i <= n,
                out.len() == i,
                forall|j: int|
                    0 <= j < i ==> #[trigger] out@[j].deep_view() == self.scan_list@[j].deep_view(),
            decreases n - i,
        {
            out.push(copy_peripheral(&self.scan_list[i]));
            i = i + 1;
        }
        assert(out.deep_view() =~= self.scan_list.deep_view());
        out
    }

    /// Whether a peripheral is connected.
    fn is_connected(&self) -> (r: bool)
        ensures
            r == (self@.peripheral is Some),
            well_formed(self@),
    {
        proof {
            use_type_invariant(self);
        }
        self.peripheral.is_some()
    }
}

/// The first position in `addresses` that holds `uuid`, if any.
pub open spec fn find_address(addresses: Seq<Seq<char>>, uuid: Seq<char>) -> Option<int> {
    first_index(addresses.len() as int, holds_address(addresses, uuid))
}

/// Whether position `i` of `addresses` holds `uuid`.
pub open spec fn holds_address(addresses: Seq<Seq<char>>, uuid: Seq<char>) -> spec_fn(int) -> bool {
    |i: int| addresses[i] == uuid
}

/// Picks the peripheral to connect to among those around, given their
/// addresses (or UUIDs) in the order the adapter lists them: the first one
/// equal to `uuid`, else `PeripheralNotFound(uuid)`.
pub fn find_peripheral(addresses: &Vec<String>, uuid: &str) -> (r: Result<usize, BleError>)
    ensures
        match r {
            Ok(i) => find_address(addresses.deep_view(), uuid@) == Some(i as int),
            Err(e) => find_address(addresses.deep_view(), uuid@) is None
                && e@ == BleErrorView::PeripheralNotFound(uuid@),
        },
{
    let ghost s = addresses.deep_view();
    let ghost p = holds_address(s, uuid@);
    let n = addresses.len();
    let mut i: usize = 0;
    while i < n
        invariant
            n == addresses.len(),
            s == addresses.deep_view(),
            p == holds_address(s, uuid@),
            i <= n,
            forall|j: int| 0 <= j < i ==> !#[trigger] p(j),
        decreases n - i,
    {
        if str_eq(addresses[i].as_str(), uuid) {
            proof {
                lemma_first_index_at(n as int, p, i as int);
            }
            return Ok(i);
        }
        i = i + 1;
    }
    proof {
        lemma_first_index_none(n as int, p);
    }
    Err(BleError::PeripheralNotFound(uuid.to_owned()))
}

/// What to do with the adapters found on the machine.
#[derive(Debug, Clone, Copy, PartialEq, Eq)]
pub enum AdapterChoice {
    /// There is none: the controller cannot start.
    NoAdapter,
    /// Use the adapter at this position.
    Use(usize),
    /// There are several: the user picks one.
    AskUser,
}

/// Chooses among `count` adapters: none is an error, a single one is used,
/// and among several the user picks.
pub fn choose_adapter(count: usize) -> (r: AdapterChoice)
    ensures
        count == 0 ==> r == AdapterChoice::NoAdapter,
        count == 1 ==> r == AdapterChoice::Use(0),
        count > 1 ==> r == AdapterChoice::AskUser,
{
    if count == 0 {
        AdapterChoice::NoAdapter
    } else if count == 1 {
        AdapterChoice::Use(0)
    } else {
        AdapterChoice::AskUser
    }
}

/// After a scan, the scan list is the list of that scan: the peripherals in
/// the order found, each with its position as id, the whole name it
/// advertises (or `unknown` when it advertises none) and its address; the
/// connection is not touched.
pub proof fn lemma_scan_then_list(v: ControllerView, found: Seq<ScanResultView>)
    requires
        found.len() <= usize::MAX,
    ensures
        after_scan(v, found).scan_list == scan_list_of(found),
        after_scan(v, found).scan_list.len() == found.len(),
        ids_are_positions(after_scan(v, found).scan_list),
        forall|i: int|
            0 <= i < found.len() ==> (#[trigger] after_scan(v, found).scan_list[i]).address_uuid
                == found[i].address_uuid,
        forall|i: int|
            0 <= i < found.len() ==> (#[trigger] after_scan(v, found).scan_list[i]).id == i,
        forall|i: int|
            0 <= i < found.len() ==> match found[i].local_name {
                Some(n) => (#[trigger] after_scan(v, found).scan_list[i]).name == n,
                None => after_scan(v, found).scan_list[i].name == "unknown"@,
            },
        after_scan(v, found).peripheral == v.peripheral,
        after_scan(v, found).notifications_running == v.notifications_running,
{
}

/// Once a connection is made the controller is connected and follows the
/// peripheral's notifications; a disconnection then hands out that
/// peripheral, stops the notifications, and ends with no connection and the
/// scan list untouched.
pub proof fn lemma_connect_then_disconnect(v: ControllerView, address_uuid: Seq<char>)
    ensures
        after_connect(v, address_uuid).peripheral is Some,
        after_connect(v, address_uuid).notifications_running,
        begin_disconnect_spec(after_connect(v, address_uuid)).1 == Ok::<Seq<char>, BleErrorView>(
            address_uuid,
        ),
        !begin_disconnect_spec(after_connect(v, address_uuid)).0.notifications_running,
        after_disconnect(begin_disconnect_spec(after_connect(v, address_uuid)).0).peripheral is None,
        !after_disconnect(begin_disconnect_spec(after_connect(v, address_uuid)).0).notifications_running,
        after_disconnect(begin_disconnect_spec(after_connect(v, address_uuid)).0).scan_list
            == v.scan_list,
{
}

/// Every change of state keeps a well-formed controller well formed: a scan,
/// a connection, and both steps of a disconnection.
pub proof fn lemma_changes_keep_well_formed(
    v: ControllerView,
    found: Seq<ScanResultView>,
    address_uuid: Seq<char>,
)
    requires
        well_formed(v),
        found.len() <= usize::MAX,
    ensures
        well_formed(initial_state()),
        well_formed(after_scan(v, found)),
        well_formed(after_connect(v, address_uuid)),
        well_formed(begin_disconnect_spec(v).0),
        well_formed(after_disconnect(v)),
{
}

/// A disconnection asked for with no connection is refused with
/// `NotConnectedToDisconnect` and changes nothing.
pub proof fn lemma_disconnect_without_connection(v: ControllerView)
    requires
        v.peripheral is None,
    ensures
        begin_disconnect_spec(v) == (v, Err::<Seq<char>, BleErrorView>(
            BleErrorView::NotConnectedToDisconnect,
        )),
{
}

/// The peripheral picked for a connection is the first one around whose
/// address (or UUID) equals the one asked for; there is none exactly when no
/// peripheral around has that address.
pub proof fn lemma_find_address(addresses: Seq<Seq<char>>, uuid: Seq<char>)
    ensures
        find_address(addresses, uuid) matches Some(i) ==> 0 <= i < addresses.len() && addresses[i]
            == uuid && forall|j: int| 0 <= j < i ==> #[trigger] addresses[j] != uuid,
        find_address(addresses, uuid) is None <==> forall|j: int|
            0 <= j < addresses.len() ==> #[trigger] addresses[j] != uuid,
{
    let p = holds_address(addresses, uuid);
    lemma_first_index(addresses.len() as int, p);
    match first_index(addresses.len() as int, p) {
        Some(k) => {
            assert(p(k));
            assert forall|j: int| 0 <= j < k implies #[trigger] addresses[j] != uuid by {
                assert(!p(j));
            }
        },
        None => {
            assert forall|j: int| 0 <= j < addresses.len() implies #[trigger] addresses[j] != uuid by {
                assert(!p(j));
            }
        },
    }
}

} // verus!
