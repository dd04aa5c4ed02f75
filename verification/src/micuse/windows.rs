//! Windows: VB-Cable is a pair of ends. The client plays into the render end,
//! "CABLE Input"; applications record from the capture end, "CABLE Output", and
//! its audio sessions tell whether they do. The client's own playing is not
//! among them.
use vstd::prelude::*;

use crate::micuse::MicUse;
use crate::text;
use crate::text::{opt_copy, replace_text, same_text, text_contains};

verus! {

/// A capture end by its id.
pub struct MonitorTarget {
    pub capture_id: String,
}

/// A capture end as the system lists it; what cannot be read is missing.
pub struct Endpoint {
    pub name: Option<String>,
    pub id: Option<String>,
}

/// The name of an end, unless it has none or an empty one.
pub open spec fn shown_name(e: Endpoint) -> Option<Seq<char>> {
    match text::opt_view(e.name) {
        Some(n) => if n.len() > 0 {
            Some(n)
        } else {
            None
        },
        None => None,
    }
}

/// The capture end that goes with an output device: of the pair name, in which
/// "Input" reads "Output", or of the device's own name.
pub open spec fn pairs_with(e: Endpoint, name: Seq<char>) -> bool {
    match shown_name(e) {
        Some(n) => n == text::replaced(name, "Input"@, "Output"@) || n == name,
        None => false,
    }
}

/// A capture end that can stand in: some VB-Cable, and its id can be read.
pub open spec fn stands_in(e: Endpoint) -> bool {
    match shown_name(e) {
        Some(n) => text::contains(n, "CABLE Output"@) && e.id is Some,
        None => false,
    }
}

pub open spec fn target_view(t: Option<MonitorTarget>) -> Option<Seq<char>> {
    match t {
        Some(t) => Some(t.capture_id@),
        None => None,
    }
}

pub open spec fn any_pair(list: Seq<Endpoint>, name: Seq<char>) -> bool {
    exists|i: int| 0 <= i < list.len() && pairs_with(#[trigger] list[i], name)
}

/// The end at a place is the first that pairs with an output device.
pub open spec fn first_pair(list: Seq<Endpoint>, name: Seq<char>, i: int) -> bool {
    &&& 0 <= i < list.len()
    &&& pairs_with(list[i], name)
    &&& forall|j: int| 0 <= j < i ==> !pairs_with(#[trigger] list[j], name)
}

/// The first end that can stand in, among the first so many.
pub open spec fn first_stand_in(list: Seq<Endpoint>, upto: int, r: Option<Seq<char>>) -> bool {
    match r {
        Some(id) => exists|i: int|
            0 <= i < upto && stands_in(#[trigger] list[i]) && text::opt_view(list[i].id) == Some(id)
                && forall|j: int| 0 <= j < i ==> !stands_in(#[trigger] list[j]),
        None => forall|j: int| 0 <= j < upto ==> !stands_in(#[trigger] list[j]),
    }
}

/// The capture end to watch for an output device: the first that pairs with it,
/// and none if that one's id cannot be read; where none pairs, the first that
/// can stand in. There is none where the ends cannot be listed.
pub fn find_monitor_target(output_device_name: &str, endpoints: &Option<Vec<Endpoint>>) -> (r:
    Option<MonitorTarget>)
    ensures
        match *endpoints {
            Some(list) => if any_pair(list@, output_device_name@) {
                exists|i: int|
                    #[trigger] first_pair(list@, output_device_name@, i) && target_view(r)
                        == text::opt_view(list@[i].id)
            } else {
                first_stand_in(list@, list@.len() as int, target_view(r))
            },
            None => r is None,
        },
{
    match endpoints {
        Some(list) => {
            let ghost name = output_device_name@;
            proof {
                reveal_strlit("Input");
            }
            let paired = replace_text(output_device_name, "Input", "Output");
            let mut fallback: Option<MonitorTarget> = None;
            let count: usize = list.len();
            let mut i: usize = 0;
            while i < count
                invariant
                    *endpoints == Some(*list),
                    count == list@.len(),
                    i <= count,
                    name == output_device_name@,
                    paired@ == text::replaced(name, "Input"@, "Output"@),
                    forall|j: int| 0 <= j < i ==> !pairs_with(#[trigger] list@[j], name),
                    first_stand_in(list@, i as int, target_view(fallback)),
                decreases count - i,
            {
                match &list[i].name {
                    Some(n) => {
                        if !n.as_str().is_empty() {
                            if same_text(n.as_str(), paired.as_str()) || same_text(
                                n.as_str(),
                                output_device_name,
                            ) {
                                assert(first_pair(list@, name, i as int));
                                return target_of(&list[i].id);
                            }
                            let cable = text_contains(n.as_str(), "CABLE Output");
                            if fallback.is_none() && cable {
                                fallback = target_of(&list[i].id);
                                assert(target_view(fallback) == text::opt_view(
                                    list@[i as int].id,
                                ));
                                assert(stands_in(list@[i as int]) == fallback is Some);
                            }
                        }
                    },
                    None => {},
                }
                i = i + 1;
            }
            fallback
        },
        None => None,
    }
}

fn target_of(id: &Option<String>) -> (r: Option<MonitorTarget>)
    ensures
        target_view(r) == text::opt_view(*id),
{
    match opt_copy(id) {
        Some(capture_id) => Some(MonitorTarget { capture_id }),
        None => None,
    }
}

/// An audio session on a capture end; the id of its process may be unreadable.
pub struct AudioSession {
    pub active: bool,
    pub pid: Option<u32>,
}

/// The session counts: it is active, and not of this process where that is asked.
pub open spec fn counts(s: AudioSession, exclude_self: bool, me: u32) -> bool {
    s.active && !(exclude_self && s.pid == Some(me))
}

pub open spec fn any_counts(list: Seq<AudioSession>, exclude_self: bool, me: u32) -> bool {
    exists|i: int| 0 <= i < list.len() && counts(#[trigger] list[i], exclude_self, me)
}

/// Whether a session is active, perhaps of another process; nothing where the
/// sessions cannot be listed.
pub fn sessions_active(sessions: &Option<Vec<AudioSession>>, exclude_self: bool, me: u32) -> (r:
    Option<bool>)
    ensures
        r == match *sessions {
            Some(list) => Some(any_counts(list@, exclude_self, me)),
            None => None,
        },
{
    match sessions {
        Some(list) => {
            let count: usize = list.len();
            let mut i: usize = 0;
            while i < count
                invariant
                    *sessions == Some(*list),
                    count == list@.len(),
                    i <= count,
                    forall|j: int| 0 <= j < i ==> !counts(#[trigger] list@[j], exclude_self, me),
                decreases count - i,
            {
                let own = match list[i].pid {
                    Some(pid) => exclude_self && pid == me,
                    None => false,
                };
                if list[i].active && !own {
                    assert(counts(list@[i as int], exclude_self, me));
                    return Some(true);
                }
                i = i + 1;
            }
            Some(false)
        },
        None => None,
    }
}

/// Whether any process records from the capture end. An end whose sessions
/// cannot be listed counts as idle.
pub fn device_running_somewhere(sessions: &Option<Vec<AudioSession>>, me: u32) -> (r: bool)
    ensures
        r == match *sessions {
            Some(list) => any_counts(list@, false, me),
            None => false,
        },
{
    match sessions_active(sessions, false, me) {
        Some(active) => active,
        None => false,
    }
}

/// Whether another process records from the capture end.
pub fn other_process_capturing(sessions: &Option<Vec<AudioSession>>, me: u32) -> (r: MicUse)
    ensures
        r == match *sessions {
            Some(list) => if any_counts(list@, true, me) {
                MicUse::InUse
            } else {
                MicUse::Idle
            },
            None => MicUse::Idle,
        },
{
    match sessions_active(sessions, true, me) {
        Some(true) => MicUse::InUse,
        _ => MicUse::Idle,
    }
}

/// A session counts if it is active, and where this app is left out, only if it is
/// not known to be this app's.
pub proof fn law_active_sessions_count(s: AudioSession, exclude_self: bool, me: u32)
    ensures
        counts(s, exclude_self, me) ==> s.active,
        s.active && !exclude_self ==> counts(s, exclude_self, me),
        s.active && s.pid is None ==> counts(s, exclude_self, me),
        s.active && exclude_self ==> (counts(s, exclude_self, me) <==> s.pid != Some(me)),
{
}

/// One session that counts is enough, and without one nobody records.
pub proof fn law_one_session_is_enough(
    a: Seq<AudioSession>,
    s: AudioSession,
    b: Seq<AudioSession>,
    exclude_self: bool,
    me: u32,
)
    ensures
        counts(s, exclude_self, me) ==> any_counts(a + seq![s] + b, exclude_self, me),
        !any_counts(Seq::empty(), exclude_self, me),
        any_counts(a + b, exclude_self, me) <==> any_counts(a, exclude_self, me) || any_counts(
            b,
            exclude_self,
            me,
        ),
{
    let all = a + seq![s] + b;
    assert(all[a.len() as int] == s);
    let ab = a + b;
    if any_counts(ab, exclude_self, me) {
        let i = choose|i: int| 0 <= i < ab.len() && counts(#[trigger] ab[i], exclude_self, me);
        if i < a.len() {
            assert(counts(a[i], exclude_self, me));
        } else {
            assert(counts(b[i - a.len()], exclude_self, me));
        }
    }
    if any_counts(a, exclude_self, me) {
        let i = choose|i: int| 0 <= i < a.len() && counts(#[trigger] a[i], exclude_self, me);
        assert(counts(ab[i], exclude_self, me));
    }
    if any_counts(b, exclude_self, me) {
        let i = choose|i: int| 0 <= i < b.len() && counts(#[trigger] b[i], exclude_self, me);
        assert(counts(ab[a.len() + i], exclude_self, me));
    }
}

/// The capture end that goes with a render end has its name with "Output" for
/// "Input", or its very name; an end without a name goes with none.
pub proof fn law_ends_pair_by_name(e: Endpoint, front: Seq<char>, behind: Seq<char>, name: Seq<char>)
    ensures
        text::opt_view(e.name) is None ==> !pairs_with(e, name) && !stands_in(e),
        text::opt_view(e.name) == Some(Seq::<char>::empty()) ==> !pairs_with(e, name) && !stands_in(
            e,
        ),
        name.len() > 0 && text::opt_view(e.name) == Some(name) ==> pairs_with(e, name),
        !text::contains(behind, "Input"@) && !text::contains(front + "Inpu"@, "Input"@)
            && text::opt_view(e.name) == Some(front + "Output"@ + behind) ==> pairs_with(
            e,
            front + "Input"@ + behind,
        ),
        pairs_with(e, name) ==> text::opt_view(e.name) == Some(name) || text::opt_view(e.name)
            == Some(text::replaced(name, "Input"@, "Output"@)),
        text::opt_view(e.name) == Some(front + "CABLE Output"@ + behind) ==> (stands_in(e) <==> e.id
            is Some),
        stands_in(e) ==> text::opt_view(e.name) is Some && text::contains(
            text::opt_view(e.name)->0,
            "CABLE Output"@,
        ),
{
    reveal_strlit("Input");
    reveal_strlit("Inpu");
    reveal_strlit("Output");
    reveal_strlit("CABLE Output");
    let full = front + "Input"@ + behind;
    if !text::contains(behind, "Input"@) && !text::contains(front + "Inpu"@, "Input"@) {
        assert forall|i: int| 0 <= i < front.len() implies #[trigger] full.subrange(i, i + 5)
            != "Input"@ by {
            if full.subrange(i, i + 5) == "Input"@ {
                let short = front + "Inpu"@;
                assert(short.subrange(i, i + 5) =~= full.subrange(i, i + 5));
                assert(text::occurs_at(short, "Input"@, i));
            }
        }
        text::law_each_piece_is_replaced(front, "Input"@, behind, "Output"@);
        text::law_each_piece_is_replaced(behind, "Input"@, behind, "Output"@);
        assert(text::replaced(full, "Input"@, "Output"@) == front + "Output"@ + behind);
    }
    text::law_text_holds_its_pieces(front, "CABLE Output"@, behind);
}

/// The end that pairs with the output device is watched whenever there is one, the
/// first of them; only else the first VB-Cable whose id can be read.
pub proof fn law_paired_end_is_preferred(list: Seq<Endpoint>, name: Seq<char>, i: int, r: Option<Seq<char>>)
    requires
        0 <= i < list.len(),
    ensures
        pairs_with(list[i], name) ==> any_pair(list, name),
        any_pair(list, name) ==> exists|k: int|
            0 <= k < list.len() && pairs_with(#[trigger] list[k], name),
        first_pair(list, name, i) <==> pairs_with(list[i], name) && forall|j: int|
            0 <= j < i ==> !pairs_with(#[trigger] list[j], name),
        first_stand_in(list, list.len() as int, r) && stands_in(list[i]) && (forall|j: int|
            0 <= j < i ==> !stands_in(#[trigger] list[j])) ==> r is Some && r == text::opt_view(
            list[i].id,
        ),
        first_stand_in(list, list.len() as int, r) && r is Some ==> exists|k: int|
            0 <= k < list.len() && #[trigger] stands_in(list[k]) && r == text::opt_view(list[k].id),
{
    if first_stand_in(list, list.len() as int, r) {
        match r {
            Some(id) => {
                let k = choose|k: int|
                    0 <= k < list.len() && stands_in(#[trigger] list[k]) && text::opt_view(
                        list[k].id,
                    ) == Some(id) && forall|j: int| 0 <= j < k ==> !stands_in(#[trigger] list[j]);
                assert(stands_in(list[k]));
                if stands_in(list[i]) && (forall|j: int|
                    0 <= j < i ==> !stands_in(#[trigger] list[j])) {
                    if k < i {
                        assert(!stands_in(list[k]));
                    } else if i < k {
                        assert(!stands_in(list[i]));
                    }
                }
            },
            None => {},
        }
    }
}

} // verus!
