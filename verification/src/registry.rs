use vstd::prelude::*;
use crate::session::{MonitorSession, SessionView, spec_open};

verus! {

/// What discovery gathered for one physical monitor: an identifier for its
/// opaque handle and the raw capability string the transport returned
/// (empty when the monitor answered nothing).
#[derive(Debug, Clone)]
pub struct MonitorReport {
    pub handle: u64,
    pub raw: Vec<u8>,
}

impl View for MonitorReport {
    type V = (u64, Seq<u8>);

    open spec fn view(&self) -> (u64, Seq<u8>) {
        (self.handle, self.raw@)
    }
}

pub open spec fn reports_view(rs: Seq<MonitorReport>) -> Seq<(u64, Seq<u8>)> {
    rs.map_values(|r: MonitorReport| (r.handle, r.raw@))
}

pub open spec fn sessions_view(ss: Seq<MonitorSession>) -> Seq<SessionView> {
    ss.map_values(|s: MonitorSession| s@)
}

/// The sessions that survive discovery: one per report whose capability
/// string opens, in report order; every other report is dropped.
pub open spec fn spec_discover(reports: Seq<(u64, Seq<u8>)>) -> Seq<SessionView>
    decreases reports.len(),
{
    if reports.len() == 0 {
        Seq::empty()
    } else {
        match spec_open(reports[0].0, reports[0].1) {
            Ok(sv) => seq![sv] + spec_discover(reports.drop_first()),
            Err(_) => spec_discover(reports.drop_first()),
        }
    }
}

/// How many reports would open as sessions.
pub open spec fn openable_count(reports: Seq<(u64, Seq<u8>)>) -> int
    decreases reports.len(),
{
    if reports.len() == 0 {
        0
    } else {
        (if spec_open(reports[0].0, reports[0].1) is Ok {
            1int
        } else {
            0int
        }) + openable_count(reports.drop_first())
    }
}

/// Discovery yields exactly as many sessions as there are monitors whose
/// capability strings are non-empty, parse, and bear the input feature.
pub proof fn lemma_discover_count(reports: Seq<(u64, Seq<u8>)>)
    ensures
        spec_discover(reports).len() == openable_count(reports),
    decreases reports.len(),
{
    if reports.len() > 0 {
        lemma_discover_count(reports.drop_first());
    }
}

/// The sessions of the monitors that discovery kept, in discovery order.
/// The registry owns its sessions; a presentation layer reaches a session
/// through its index in `sessions`.
pub struct Registry {
    pub sessions: Vec<MonitorSession>,
}

impl Registry {
    /// Builds one session per reported physical monitor and silently
    /// excludes every monitor whose capability string is empty, malformed,
    /// or lacks Input Select: partial success is normal, and one
    /// failure-prone monitor must not hide the others.
    pub fn discover(reports: &Vec<MonitorReport>) -> (r: Registry)
        ensures
            sessions_view(r.sessions@) == spec_discover(reports_view(reports@)),
    {
        let ghost w = reports_view(reports@);
        let mut sessions: Vec<MonitorSession> = Vec::new();
        let mut i: usize = 0;
        proof {
            assert(w.skip(0) =~= w);
            assert(sessions_view(sessions@) + spec_discover(w) =~= spec_discover(w));
        }
        while i < reports.len()
            invariant
                i <= reports@.len(),
                w == reports_view(reports@),
                spec_discover(w) == sessions_view(sessions@) + spec_discover(w.skip(i as int)),
            decreases reports@.len() - i,
        {
            let ghost rest = w.skip(i as int);
            proof {
                assert(rest[0] == w[i as int]);
                assert(rest.drop_first() =~= w.skip(i + 1 as int));
            }
            match MonitorSession::open(reports[i].handle, reports[i].raw.as_slice()) {
                Ok(sess) => {
                    let ghost before = sessions_view(sessions@);
                    sessions.push(sess);
                    proof {
                        assert(sessions_view(sessions@) =~= before.push(sess@));
                        assert(before.push(sess@) + spec_discover(w.skip(i + 1 as int)) =~= before
                            + (seq![sess@] + spec_discover(w.skip(i + 1 as int))));
                    }
                },
                Err(_) => {},
            }
            i = i + 1;
        }
        proof {
            assert(w.skip(i as int) =~= Seq::<(u64, Seq<u8>)>::empty());
            assert(sessions_view(sessions@) + spec_discover(w.skip(i as int)) =~= sessions_view(
                sessions@,
            ));
        }
        Registry { sessions }
    }
}

} // verus!
