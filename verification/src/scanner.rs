//! The per-tick orchestrator: polls every scan device's outcome, forwards
//! the resulting key events to the evaluator in device order, ticks the
//! evaluator once, and hands the key-code set to the reporter. One failing
//! device never blocks the others.

use vstd::prelude::*;
use crate::device::DeviceState;
use crate::devices::DevView;
use crate::devices::Devices;
use crate::devices::dev_events;
use crate::devices::dev_step;
use crate::evaluator::EvState;
use crate::evaluator::Evaluator;
use crate::evaluator::arena_ok;
use crate::evaluator::spec_eval;
use crate::evaluator::spec_tick;
use crate::evaluator::spec_wf;
use crate::event::KeyEvent;
use crate::reporter::Reporter;
use crate::switch::Switch;

verus! {

/// The views of a device list, in scan order.
pub open spec fn device_views(devs: Seq<Devices>) -> Seq<DevView> {
    Seq::new(devs.len(), |i: int| devs[i]@)
}

/// The evaluator state after consuming a stream of key events in order.
pub open spec fn spec_eval_seq(s: EvState, events: Seq<KeyEvent>, arena: Seq<Switch>) -> EvState
    decreases events,
{
    if events.len() == 0 {
        s
    } else {
        spec_eval_seq(
            spec_eval(s, events[0], arena),
            events.subrange(1, events.len() as int),
            arena,
        )
    }
}

/// The evaluator state after one scan pass: device by device, in order,
/// each device's events - none on a bus error - are fed to the evaluator.
pub open spec fn spec_scan_eval(
    devs: Seq<DevView>,
    reads: Seq<Option<DeviceState>>,
    s: EvState,
    arena: Seq<Switch>,
) -> EvState
    decreases devs,
{
    if devs.len() == 0 {
        s
    } else {
        spec_scan_eval(
            devs.subrange(1, devs.len() as int),
            reads.subrange(1, reads.len() as int),
            spec_eval_seq(s, dev_events(devs[0], reads[0]), arena),
            arena,
        )
    }
}

/// A device whose poll failed contributes nothing: the scan result is
/// exactly that of the device list with it absent.
pub proof fn lemma_fault_isolation(
    devs: Seq<DevView>,
    reads: Seq<Option<DeviceState>>,
    s: EvState,
    arena: Seq<Switch>,
    k: int,
)
    requires
        devs.len() == reads.len(),
        0 <= k < devs.len(),
        reads[k] is None,
    ensures
        spec_scan_eval(devs, reads, s, arena) == spec_scan_eval(
            devs.remove(k),
            reads.remove(k),
            s,
            arena,
        ),
    decreases devs.len(),
{
    let dtail = devs.subrange(1, devs.len() as int);
    let rtail = reads.subrange(1, reads.len() as int);
    if k == 0 {
        assert(dev_events(devs[0], reads[0]) =~= Seq::<KeyEvent>::empty());
        assert(spec_eval_seq(s, Seq::<KeyEvent>::empty(), arena) == s);
        assert(devs.remove(0) =~= dtail);
        assert(reads.remove(0) =~= rtail);
    } else {
        let s1 = spec_eval_seq(s, dev_events(devs[0], reads[0]), arena);
        lemma_fault_isolation(dtail, rtail, s1, arena, k - 1);
        assert(devs.remove(k).subrange(1, devs.remove(k).len() as int) =~= dtail.remove(k - 1));
        assert(reads.remove(k).subrange(1, reads.remove(k).len() as int) =~= rtail.remove(k - 1));
        assert(devs.remove(k)[0] == devs[0]);
        assert(reads.remove(k)[0] == reads[0]);
    }
}

/// Drives one scan pass per tick over the devices and the evaluator.
pub struct Scanner {
    pub evaluator: Evaluator,
}

impl Scanner {
    pub fn new(evaluator: Evaluator) -> (r: Scanner)
        ensures
            r.evaluator@ == evaluator@,
    {
        Scanner { evaluator }
    }

    /// One tick: feed each device its poll outcome - `None` marks a bus
    /// error, which skips only that device - forward all resulting key
    /// events to the evaluator in device order, tick the evaluator once,
    /// and report the resulting key-code set.
    pub fn scan<R: Reporter>(
        &mut self,
        devices: &mut Vec<Devices>,
        reads: &Vec<Option<DeviceState>>,
        arena: &Vec<Switch>,
        reporter: &mut R,
    )
        requires
            old(devices)@.len() == reads@.len(),
            forall|i: int| 0 <= i < old(devices)@.len() ==> (#[trigger] old(devices)@[i]).wf(),
            spec_wf(old(self).evaluator@),
            arena_ok(arena@),
        ensures
            spec_wf(final(self).evaluator@),
            final(devices)@.len() == old(devices)@.len(),
            forall|i: int|
                0 <= i < old(devices)@.len() ==> (#[trigger] final(devices)@[i])@ == dev_step(
                    old(devices)@[i]@,
                    reads@[i],
                ) && final(devices)@[i].wf(),
            final(self).evaluator@ == spec_tick(
                spec_scan_eval(
                    device_views(old(devices)@),
                    reads@,
                    old(self).evaluator@,
                    arena@,
                ),
                arena@,
            ),
    {
        let ghost dev0 = devices@;
        let ghost ev0 = self.evaluator@;
        let n = devices.len();
        proof {
            assert(dev0.subrange(0, n as int) =~= dev0);
            assert(device_views(dev0).subrange(0, n as int) =~= device_views(dev0));
            assert(reads@.subrange(0, n as int) =~= reads@);
        }
        let mut out: Vec<Devices> = Vec::new();
        let mut i: usize = 0;
        while i < n
            invariant
                i <= n,
                out@.len() == i,
                dev0.len() == n,
                reads@.len() == n,
                devices@ == dev0.subrange(i as int, n as int),
                arena_ok(arena@),
                spec_wf(self.evaluator@),
                forall|k: int| 0 <= k < n ==> (#[trigger] dev0[k]).wf(),
                forall|k: int|
                    0 <= k < i ==> (#[trigger] out@[k])@ == dev_step(dev0[k]@, reads@[k])
                        && out@[k].wf(),
                spec_scan_eval(device_views(dev0), reads@, ev0, arena@) == spec_scan_eval(
                    device_views(dev0).subrange(i as int, n as int),
                    reads@.subrange(i as int, n as int),
                    self.evaluator@,
                    arena@,
                ),
            decreases n - i,
        {
            let mut d = devices.remove(0);
            proof {
                assert(d == dev0[i as int]);
                assert(devices@ =~= dev0.subrange(i + 1, n as int));
            }
            let ghost cur0 = self.evaluator@;
            let ghost evs = dev_events(dev0[i as int]@, reads@[i as int]);
            match &reads[i] {
                Some(state) => {
                    let buf = d.pick_from_state(state);
                    proof {
                        assert(buf.buffer@ == evs);
                    }
                    let m = buf.buffer.len();
                    proof {
                        assert(evs.subrange(0, m as int) =~= evs);
                    }
                    let mut j: usize = 0;
                    while j < m
                        invariant
                            j <= m,
                            m == evs.len(),
                            buf.buffer@ == evs,
                            arena_ok(arena@),
                            spec_wf(self.evaluator@),
                            spec_eval_seq(cur0, evs, arena@) == spec_eval_seq(
                                self.evaluator@,
                                evs.subrange(j as int, m as int),
                                arena@,
                            ),
                        decreases m - j,
                    {
                        let ev = buf.buffer[j];
                        let ghost before = self.evaluator@;
                        self.evaluator.eval(ev, arena, reporter);
                        proof {
                            let rest = evs.subrange(j as int, m as int);
                            assert(rest[0] == evs[j as int]);
                            assert(rest.subrange(1, rest.len() as int) =~= evs.subrange(
                                j + 1,
                                m as int,
                            ));
                        }
                        j = j + 1;
                    }
                    proof {
                        assert(evs.subrange(m as int, m as int) =~= Seq::<KeyEvent>::empty());
                    }
                },
                None => {
                    proof {
                        assert(evs =~= Seq::<KeyEvent>::empty());
                    }
                },
            }
            out.push(d);
            i = i + 1;
            proof {
                let views = device_views(dev0);
                let vrest = views.subrange(i - 1, n as int);
                assert(vrest[0] == dev0[i - 1]@);
                assert(vrest.subrange(1, vrest.len() as int) =~= views.subrange(i as int, n as int));
                let rrest = reads@.subrange(i - 1, n as int);
                assert(rrest[0] == reads@[i - 1]);
                assert(rrest.subrange(1, rrest.len() as int) =~= reads@.subrange(
                    i as int,
                    n as int,
                ));
                assert(spec_eval_seq(cur0, evs, arena@) == self.evaluator@);
            }
        }
        proof {
            assert(dev0.subrange(n as int, n as int) =~= Seq::<Devices>::empty());
            assert(device_views(dev0).subrange(n as int, n as int) =~= Seq::<DevView>::empty());
            assert(reads@.subrange(n as int, n as int) =~= Seq::<Option<DeviceState>>::empty());
        }
        *devices = out;
        self.evaluator.tick(arena, reporter);
    }
}

} // verus!
