//! What a BLE controller knows of the peripherals around it, and the errors
//! of its operations.

pub mod btleplug;

use vstd::prelude::*;

verus! {

/// A peripheral of the last scan.
#[derive(Debug, Clone)]
pub struct BlePeripheral {
    /// The peripheral's position in the scan list, by which the shell names it.
    pub id: usize,
    /// The peripheral's name, `unknown` when it advertises none.
    pub name: String,
    /// The peripheral's address (or, where the platform gives no address, its UUID).
    pub address_uuid: String,
}

/// The mathematical value of a [`BlePeripheral`].
pub struct PeripheralView {
    pub id: usize,
    pub name: Seq<char>,
    pub address_uuid: Seq<char>,
}

impl DeepView for BlePeripheral {
    type V = PeripheralView;

    open spec fn deep_view(&self) -> PeripheralView {
        PeripheralView { id: self.id, name: self.name@, address_uuid: self.address_uuid@ }
    }
}

/// What a scan reports of one peripheral: the name it advertises, if any, and its address.
pub struct ScanResult {
    pub local_name: Option<String>,
    pub address_uuid: String,
}

/// The mathematical value of a [`ScanResult`].
pub struct ScanResultView {
    pub local_name: Option<Seq<char>>,
    pub address_uuid: Seq<char>,
}

impl DeepView for ScanResult {
    type V = ScanResultView;

    open spec fn deep_view(&self) -> ScanResultView {
        ScanResultView { local_name: self.local_name.deep_view(), address_uuid: self.address_uuid@ }
    }
}

/// A copy of a peripheral, field by field.
pub fn copy_peripheral(p: &BlePeripheral) -> (r: BlePeripheral)
    ensures
        r.deep_view() == p.deep_view(),
{
    BlePeripheral { id: p.id, name: p.name.clone(), address_uuid: p.address_uuid.clone() }
}

/// A failed operation of the controller or of the shell.
#[derive(Debug, PartialEq, Eq)]
pub enum BleError {
    /// No peripheral of the scan list has the id asked for.
    IdNotFound,
    /// A command that needs a connection was given with none.
    NotConnected,
    /// A disconnection was asked for with no connection.
    NotConnectedToDisconnect,
    /// No peripheral around has this address or UUID.
    PeripheralNotFound(String),
    /// No peripheral of the scan list has this name, address or id.
    IdentifierNotFound(String),
}

/// The mathematical value of a [`BleError`].
pub enum BleErrorView {
    IdNotFound,
    NotConnected,
    NotConnectedToDisconnect,
    PeripheralNotFound(Seq<char>),
    IdentifierNotFound(Seq<char>),
}

impl View for BleError {
    type V = BleErrorView;

    open spec fn view(&self) -> BleErrorView {
        match self {
            BleError::IdNotFound => BleErrorView::IdNotFound,
            BleError::NotConnected => BleErrorView::NotConnected,
            BleError::NotConnectedToDisconnect => BleErrorView::NotConnectedToDisconnect,
            BleError::PeripheralNotFound(u) => BleErrorView::PeripheralNotFound(u@),
            BleError::IdentifierNotFound(u) => BleErrorView::IdentifierNotFound(u@),
        }
    }
}

/// The message that reports an error to the user.
pub open spec fn error_message(e: BleErrorView) -> Seq<char> {
    match e {
        BleErrorView::IdNotFound => "Id not found"@,
        BleErrorView::NotConnected => "Error: You must be connected to a peripheral to run this command"@,
        BleErrorView::NotConnectedToDisconnect => "Error: You must be connected to disconnect"@,
        BleErrorView::PeripheralNotFound(u) => "Peripheral with uuid "@ + u + " not found"@,
        BleErrorView::IdentifierNotFound(u) => "No peripheral named "@ + u + " in the scan list"@,
    }
}

impl BleError {
    /// The message that reports this error to the user.
    pub fn message(&self) -> (r: String)
        ensures
            r@ == error_message(self@),
    {
        match self {
            BleError::IdNotFound => "Id not found".to_owned(),
            BleError::NotConnected => "Error: You must be connected to a peripheral to run this command".to_owned(),
            BleError::NotConnectedToDisconnect => "Error: You must be connected to disconnect".to_owned(),
            BleError::PeripheralNotFound(u) => {
                let mut m = "Peripheral with uuid ".to_owned();
                m.append(u.as_str());
                m.append(" not found");
                m
            },
            BleError::IdentifierNotFound(u) => {
                let mut m = "No peripheral named ".to_owned();
                m.append(u.as_str());
                m.append(" in the scan list");
                m
            },
        }
    }
}

/// The controller's state as the shell reads it.
pub trait BleController {
    /// The peripherals of the last scan.
    fn get_scan_list(&self) -> Vec<BlePeripheral>;

    /// Whether a peripheral is connected.
    fn is_connected(&self) -> bool;
}

/// The first position below `n` where `p` holds, if there is one.
pub open spec fn first_index(n: int, p: spec_fn(int) -> bool) -> Option<int> {
    if exists|i: int| 0 <= i < n && #[trigger] p(i) {
        Some(choose|i: int| 0 <= i < n && #[trigger] p(i) && forall|j: int| 0 <= j < i ==> !#[trigger] p(j))
    } else {
        None
    }
}

/// `first_index` is `i` when `p` holds at `i` and nowhere before it.
pub proof fn lemma_first_index_at(n: int, p: spec_fn(int) -> bool, i: int)
    requires
        0 <= i < n,
        p(i),
        forall|j: int| 0 <= j < i ==> !#[trigger] p(j),
    ensures
        first_index(n, p) == Some(i),
{
    let k = choose|k: int| 0 <= k < n && #[trigger] p(k) && forall|j: int| 0 <= j < k ==> !#[trigger] p(j);
    assert(0 <= k < n && p(k) && forall|j: int| 0 <= j < k ==> !#[trigger] p(j));
    if k < i {
        assert(!p(k));
    }
    if i < k {
        assert(!p(i));
    }
}

/// Where `p` holds somewhere below `n`, it holds at a first place.
proof fn lemma_first_place_exists(n: int, p: spec_fn(int) -> bool)
    requires
        exists|i: int| 0 <= i < n && #[trigger] p(i),
    ensures
        exists|k: int| 0 <= k < n && #[trigger] p(k) && forall|j: int| 0 <= j < k ==> !#[trigger] p(j),
    decreases n,
{
    if exists|i: int| 0 <= i < n - 1 && #[trigger] p(i) {
        lemma_first_place_exists(n - 1, p);
        let k = choose|k: int| 0 <= k < n - 1 && #[trigger] p(k) && forall|j: int| 0 <= j < k ==> !#[trigger] p(j);
        assert(0 <= k < n && p(k) && forall|j: int| 0 <= j < k ==> !#[trigger] p(j));
    } else {
        assert(p(n - 1));
        assert(forall|j: int| 0 <= j < n - 1 ==> !#[trigger] p(j));
    }
}

/// `first_index` is the first place below `n` where `p` holds, or `None`
/// when `p` holds nowhere below `n`.
pub proof fn lemma_first_index(n: int, p: spec_fn(int) -> bool)
    ensures
        match first_index(n, p) {
            Some(k) => 0 <= k < n && p(k) && forall|j: int| 0 <= j < k ==> !#[trigger] p(j),
            None => forall|j: int| 0 <= j < n ==> !#[trigger] p(j),
        },
{
    if exists|i: int| 0 <= i < n && #[trigger] p(i) {
        lemma_first_place_exists(n, p);
    }
}

/// `first_index` is `None` when `p` holds nowhere below `n`.
pub proof fn lemma_first_index_none(n: int, p: spec_fn(int) -> bool)
    requires
        forall|j: int| 0 <= j < n ==> !#[trigger] p(j),
    ensures
        first_index(n, p) == None::<int>,
{
}

} // verus!
