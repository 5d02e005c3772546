//! The scan list as the `scan` command shows it.

use vstd::prelude::*;
use crate::controllers::{BlePeripheral, PeripheralView, copy_peripheral};
use crate::text::str_eq;

verus! {

/// The peripherals of a list that advertise a name (their name is not `unknown`), in order.
pub open spec fn named_only(s: Seq<PeripheralView>) -> Seq<PeripheralView>
    decreases s.len(),
{
    if s.len() == 0 {
        Seq::empty()
    } else if s.last().name == "unknown"@ {
        named_only(s.drop_last())
    } else {
        named_only(s.drop_last()).push(s.last())
    }
}

/// The peripherals that the scan list shows: all of them with `--all`, else
/// only those that advertise a name.
pub open spec fn visible_spec(s: Seq<PeripheralView>, show_all: bool) -> Seq<PeripheralView> {
    if show_all {
        s
    } else {
        named_only(s)
    }
}

/// The peripherals of `scan_list` to show: with `show_all` all of them, else
/// those whose name is not `unknown`, in the order of the list.
pub fn visible_peripherals(scan_list: &Vec<BlePeripheral>, show_all: bool) -> (r: Vec<BlePeripheral>)
    ensures
        r.deep_view() == visible_spec(scan_list.deep_view(), show_all),
{
    let ghost s = scan_list.deep_view();
    let mut out: Vec<BlePeripheral> = Vec::new();
    let n = scan_list.len();
    let mut i: usize = 0;
    assert(s.take(0) =~= Seq::<PeripheralView>::empty());
    while i < n
        invariant
            n == scan_list.len(),
            s == scan_list.deep_view(),
            i <= n,
            out.deep_view() == visible_spec(s.take(i as int), show_all),
        decreases n - i,
    {
        let ghost before = out.deep_view();
        let p = &scan_list[i];
        assert(s.take(i as int + 1).drop_last() =~= s.take(i as int));
        assert(s.take(i as int + 1).last() == p.deep_view());
        if show_all || !str_eq(p.name.as_str(), "unknown") {
            let c = copy_peripheral(p);
            out.push(c);
            assert(out.deep_view() =~= before.push(p.deep_view()));
        }
        proof {
            if show_all {
                assert(s.take(i as int + 1) =~= s.take(i as int).push(p.deep_view()));
            }
        }
        i = i + 1;
    }
    assert(s.take(n as int) =~= s);
    out
}

/// Without `--all` the scan list shows exactly the peripherals whose name is
/// not `unknown` (those that advertise a name), in the order of the list; with
/// `--all` it shows the whole list.
pub proof fn lemma_visible_peripherals(s: Seq<PeripheralView>)
    ensures
        visible_spec(s, false) == s.filter(|p: PeripheralView| p.name != "unknown"@),
        visible_spec(s, true) == s,
    decreases s.len(),
{
    reveal_with_fuel(Seq::<PeripheralView>::filter, 1);
    if s.len() > 0 {
        lemma_visible_peripherals(s.drop_last());
    }
}

} // verus!
