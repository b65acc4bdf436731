//! Running a conformance suite on every backend that a machine offers.
//!
//! A list of backends can be pinned, and then a backend without a driver is an error. Without a
//! list the machine is probed. The portable variant must run somewhere; the native one may find
//! no device with 64-bit integers, unless the run is told to insist on one.
use vstd::prelude::*;
use crate::text::{chars_of, contents, pieces, same_chars, split_on, trim, trimmed};

verus! {

/// A backend that the suite runs on.
#[derive(Clone, Copy, Debug, PartialEq, Eq, Structural)]
pub enum Candidate {
    Vulkan,
    Dx12,
    Metal,
}

impl Candidate {
    /// The name of the backend.
    pub open spec fn spec_name(self) -> Seq<char> {
        match self {
            Candidate::Vulkan => "vulkan"@,
            Candidate::Dx12 => "dx12"@,
            Candidate::Metal => "metal"@,
        }
    }

    /// The name of the backend.
    pub fn name(self) -> (name: &'static str)
        ensures
            name@ == self.spec_name(),
    {
        match self {
            Candidate::Vulkan => "vulkan",
            Candidate::Dx12 => "dx12",
            Candidate::Metal => "metal",
        }
    }
}

/// All backends, in the order in which the suite visits them.
pub fn all_backends() -> (candidates: [Candidate; 3])
    ensures
        candidates@ == seq![Candidate::Vulkan, Candidate::Dx12, Candidate::Metal],
{
    let candidates: [Candidate; 3] = [Candidate::Vulkan, Candidate::Dx12, Candidate::Metal];
    assert(candidates@ =~= seq![Candidate::Vulkan, Candidate::Dx12, Candidate::Metal]);
    candidates
}

/// The backend of a name.
pub open spec fn candidate_named(name: Seq<char>) -> Option<Candidate> {
    if name == "vulkan"@ {
        Some(Candidate::Vulkan)
    } else if name == "dx12"@ {
        Some(Candidate::Dx12)
    } else if name == "metal"@ {
        Some(Candidate::Metal)
    } else {
        None
    }
}

/// The backends that a list of names pins, in its order. Blank names are skipped; the position of
/// the first name that is no backend is an error.
pub open spec fn pinned(names: Seq<Seq<char>>) -> Result<Seq<Candidate>, int>
    decreases names.len(),
{
    if names.len() == 0 {
        Ok(Seq::empty())
    } else {
        match pinned(names.drop_last()) {
            Err(at) => Err(at),
            Ok(list) => {
                let name = trimmed(names.last());
                if name.len() == 0 {
                    Ok(list)
                } else {
                    match candidate_named(name) {
                        Some(candidate) => Ok(list.push(candidate)),
                        None => Err(names.len() - 1),
                    }
                }
            },
        }
    }
}

/// The first unknown name is the same for every longer list.
proof fn lemma_unknown_stays(names: Seq<Seq<char>>, i: int)
    requires
        0 <= i <= names.len(),
        pinned(names.take(i)) is Err,
    ensures
        pinned(names) == pinned(names.take(i)),
    decreases names.len() - i,
{
    if i < names.len() {
        assert(names.take(i + 1).drop_last() == names.take(i));
        lemma_unknown_stays(names, i + 1);
    } else {
        assert(names.take(i) == names);
    }
}

/// Reads a list of backends, separated by commas. An error gives the position of the first name
/// that is no backend.
pub fn required_backends(raw: &str) -> (list: Result<Vec<Candidate>, usize>)
    ensures
        match list {
            Ok(list) => pinned(pieces(raw@, ',')) == Ok::<Seq<Candidate>, int>(list@),
            Err(at) => pinned(pieces(raw@, ',')) == Err::<Seq<Candidate>, int>(at as int),
        },
{
    let names: Vec<Vec<char>> = split_on(&chars_of(raw), ',');
    let ghost all = contents(names@);
    let mut list: Vec<Candidate> = Vec::new();
    let mut i: usize = 0;
    while i < names.len()
        invariant
            i <= names.len(),
            all == contents(names@),
            all == pieces(raw@, ','),
            pinned(all.take(i as int)) == Ok::<Seq<Candidate>, int>(list@),
        decreases names.len() - i,
    {
        proof {
            assert(all.take(i + 1).drop_last() == all.take(i as int));
            assert(all.take(i + 1).last() == names@[i as int]@);
        }
        let name: Vec<char> = trim(&names[i]);
        if name.len() > 0 {
            if same_chars(&name, &chars_of("vulkan")) {
                list.push(Candidate::Vulkan);
            } else if same_chars(&name, &chars_of("dx12")) {
                list.push(Candidate::Dx12);
            } else if same_chars(&name, &chars_of("metal")) {
                list.push(Candidate::Metal);
            } else {
                proof {
                    assert(pinned(all.take(i + 1)) == Err::<Seq<Candidate>, int>(i as int));
                    lemma_unknown_stays(all, i + 1);
                }
                return Err(i);
            }
        }
        i = i + 1;
    }
    assert(all.take(all.len() as int) == all);
    Ok(list)
}

/// Whether a backend is on a list.
fn is_listed(list: &Vec<Candidate>, candidate: Candidate) -> (listed: bool)
    ensures
        listed == list@.contains(candidate),
{
    let mut i: usize = 0;
    while i < list.len()
        invariant
            i <= list@.len(),
            forall|k: int| 0 <= k < i ==> list@[k] != candidate,
        decreases list@.len() - i,
    {
        if list[i] == candidate {
            return true;
        }
        i = i + 1;
    }
    false
}

/// What became of opening a backend.
#[derive(Clone, Copy, Debug, PartialEq, Eq, Structural)]
pub enum Event {
    /// A device was opened and the suite ran on it.
    Ran,
    /// There is no driver, or the driver refused a device.
    NoAdapter,
    /// The device has no 64-bit integers.
    NoInt64,
}

/// What to do about it.
#[derive(Clone, Copy, Debug, PartialEq, Eq, Structural)]
pub enum Action {
    /// Go on with the next backend.
    Continue,
    /// Tell that the backend was skipped for want of an adapter.
    SkippedNoAdapter,
    /// Tell that the backend was skipped for want of 64-bit integers.
    SkippedNoInt64,
    /// Fail: the backend is pinned but has no usable adapter.
    PinnedButMissing,
}

/// How a survey ends.
#[derive(Clone, Copy, Debug, PartialEq, Eq, Structural)]
pub enum Finish {
    /// The suite ran on a backend.
    Tested,
    /// The native variant ran nowhere, because no device here has 64-bit integers.
    NativeUntested,
    /// Fail: the variant went untested.
    Untested,
}

/// A visit of the backends of a machine with one variant.
pub struct Survey {
    pub native: bool,
    pub required: Option<Vec<Candidate>>,
    pub ran: Vec<Candidate>,
    pub no_int64: Vec<Candidate>,
}

impl Survey {
    /// The suite visits `candidate`: every backend, or those that are pinned.
    pub open spec fn spec_visits(self, candidate: Candidate) -> bool {
        match self.required {
            Some(list) => list@.contains(candidate),
            None => true,
        }
    }

    /// What to do about an event.
    pub open spec fn action(self, event: Event) -> Action {
        match event {
            Event::Ran => Action::Continue,
            Event::NoAdapter => if self.required is Some {
                Action::PinnedButMissing
            } else {
                Action::SkippedNoAdapter
            },
            Event::NoInt64 => Action::SkippedNoInt64,
        }
    }

    /// What an event on `candidate` makes of the survey: it is noted where the suite ran, and
    /// where 64-bit integers were missing.
    pub open spec fn becomes(self, after: Survey, candidate: Candidate, event: Event) -> bool {
        &&& after.native == self.native
        &&& after.required == self.required
        &&& after.ran@ == if event is Ran {
            self.ran@.push(candidate)
        } else {
            self.ran@
        }
        &&& after.no_int64@ == if event is NoInt64 {
            self.no_int64@.push(candidate)
        } else {
            self.no_int64@
        }
    }

    /// What a visit of `candidate` makes of the survey: nothing if the suite does not visit it.
    pub open spec fn passes(self, after: Survey, candidate: Candidate, event: Event) -> bool {
        if self.spec_visits(candidate) {
            self.becomes(after, candidate, event)
        } else {
            after == self
        }
    }

    /// How the survey ends: with a test, or for the native variant with a device that lacks
    /// 64-bit integers, as long as nobody insists on them.
    pub open spec fn spec_finish(self, int64_required: bool) -> Finish {
        if self.ran@.len() > 0 {
            Finish::Tested
        } else if self.native && self.no_int64@.len() > 0 && !int64_required {
            Finish::NativeUntested
        } else {
            Finish::Untested
        }
    }

    /// Starts a survey.
    pub fn new(native: bool, required: Option<Vec<Candidate>>) -> (survey: Survey)
        ensures
            survey.native == native,
            survey.required == required,
            survey.ran@.len() == 0,
            survey.no_int64@.len() == 0,
    {
        Survey { native, required, ran: Vec::new(), no_int64: Vec::new() }
    }

    /// Whether the suite visits a backend.
    pub fn visits(&self, candidate: Candidate) -> (visits: bool)
        ensures
            visits == self.spec_visits(candidate),
            match self.required {
                Some(list) => visits <==> exists|i: int|
                    0 <= i < list@.len() && #[trigger] list@[i] == candidate,
                None => visits,
            },
    {
        match &self.required {
            Some(list) => is_listed(list, candidate),
            None => true,
        }
    }

    /// Takes in what became of a backend, and tells what to do about it.
    pub fn observe(&mut self, candidate: Candidate, event: Event) -> (action: Action)
        ensures
            action == old(self).action(event),
            old(self).becomes(*final(self), candidate, event),
    {
        match event {
            Event::Ran => {
                self.ran.push(candidate);
                Action::Continue
            },
            Event::NoAdapter => {
                if self.required.is_some() {
                    Action::PinnedButMissing
                } else {
                    Action::SkippedNoAdapter
                }
            },
            Event::NoInt64 => {
                self.no_int64.push(candidate);
                Action::SkippedNoInt64
            },
        }
    }

    /// How the survey ends.
    pub fn finish(&self, int64_required: bool) -> (finish: Finish)
        ensures
            finish == self.spec_finish(int64_required),
    {
        if self.ran.len() > 0 {
            Finish::Tested
        } else if self.native && self.no_int64.len() > 0 && !int64_required {
            Finish::NativeUntested
        } else {
            Finish::Untested
        }
    }
}

/// A survey never passes in silence: it ends well only if the suite ran, or if the variant is the
/// native one, a device without 64-bit integers was met, and nobody insists on them. The portable
/// variant must run somewhere, always.
pub proof fn survey_never_passes_in_silence(survey: Survey, int64_required: bool)
    ensures
        survey.spec_finish(int64_required) is Untested <==> survey.ran@.len() == 0 && (
        !survey.native || survey.no_int64@.len() == 0 || int64_required),
        !survey.native && survey.ran@.len() == 0 ==> survey.spec_finish(int64_required) is Untested,
{
}

/// A survey of all backends ends by what it met: it is tested exactly if the suite ran on a
/// visited backend, and native but untested exactly if it ran on none of them, some of them lacks
/// 64-bit integers, and nobody insists on these.
pub proof fn a_survey_ends_by_what_it_met(
    start: Survey,
    second: Survey,
    third: Survey,
    end: Survey,
    events: spec_fn(Candidate) -> Event,
    int64_required: bool,
)
    requires
        start.ran@.len() == 0,
        start.no_int64@.len() == 0,
        start.passes(second, Candidate::Vulkan, events(Candidate::Vulkan)),
        second.passes(third, Candidate::Dx12, events(Candidate::Dx12)),
        third.passes(end, Candidate::Metal, events(Candidate::Metal)),
    ensures
        end.spec_finish(int64_required) is Tested <==> exists|c: Candidate|
            start.spec_visits(c) && #[trigger] events(c) is Ran,
        end.spec_finish(int64_required) is NativeUntested <==> {
            &&& start.native
            &&& !int64_required
            &&& forall|c: Candidate| start.spec_visits(c) ==> !(#[trigger] events(c) is Ran)
            &&& exists|c: Candidate| start.spec_visits(c) && #[trigger] events(c) is NoInt64
        },
{
    assert forall|c: Candidate|
        start.spec_visits(c) && #[trigger] events(c) is Ran implies end.ran@.len() > 0 by {
        assert(c == Candidate::Vulkan || c == Candidate::Dx12 || c == Candidate::Metal);
    }
    assert forall|c: Candidate|
        start.spec_visits(c) && #[trigger] events(c) is NoInt64 implies end.no_int64@.len() > 0 by {
        assert(c == Candidate::Vulkan || c == Candidate::Dx12 || c == Candidate::Metal);
    }
}

/// A pinned backend without a driver fails the suite; an unpinned one is skipped.
pub proof fn pinned_backends_must_open(survey: Survey)
    ensures
        survey.action(Event::NoAdapter) is PinnedButMissing <==> survey.required is Some,
{
}

} // verus!
