use vstd::prelude::*;
use crate::logo::LogoResponse;

verus! {

fn same_panel(a: &Vec<String>, b: &Vec<String>) -> (r: bool)
    ensures
        r == (a.deep_view() == b.deep_view()),
{
    if a.len() != b.len() {
        assert(a.deep_view().len() != b.deep_view().len());
        return false;
    }
    let mut i: usize = 0;
    while i < a.len()
        invariant
            a@.len() == b@.len(),
            0 <= i <= a@.len(),
            forall|j: int| 0 <= j < i ==> #[trigger] a.deep_view()[j] == b.deep_view()[j],
        decreases a@.len() - i,
    {
        if a[i] != b[i] {
            assert(a.deep_view()[i as int] != b.deep_view()[i as int]);
            return false;
        }
        i = i + 1;
    }
    assert(a.deep_view() =~= b.deep_view());
    true
}

fn same_character(a: &Vec<Vec<String>>, b: &Vec<Vec<String>>) -> (r: bool)
    ensures
        r == (a.deep_view() == b.deep_view()),
{
    if a.len() != b.len() {
        assert(a.deep_view().len() != b.deep_view().len());
        return false;
    }
    let mut i: usize = 0;
    while i < a.len()
        invariant
            a@.len() == b@.len(),
            0 <= i <= a@.len(),
            forall|j: int| 0 <= j < i ==> #[trigger] a.deep_view()[j] == b.deep_view()[j],
        decreases a@.len() - i,
    {
        if !same_panel(&a[i], &b[i]) {
            assert(a.deep_view()[i as int] != b.deep_view()[i as int]);
            return false;
        }
        i = i + 1;
    }
    assert(a.deep_view() =~= b.deep_view());
    true
}

/// Whether two descriptions are equal token for token.
pub fn same_description(a: &LogoResponse, b: &LogoResponse) -> (r: bool)
    ensures
        r == (a@ == b@),
{
    if a.logo.len() != b.logo.len() {
        assert(a@.len() != b@.len());
        return false;
    }
    let mut i: usize = 0;
    while i < a.logo.len()
        invariant
            a.logo@.len() == b.logo@.len(),
            0 <= i <= a.logo@.len(),
            forall|j: int| 0 <= j < i ==> #[trigger] a@[j] == b@[j],
        decreases a.logo@.len() - i,
    {
        if !same_character(&a.logo[i], &b.logo[i]) {
            assert(a@[i as int] != b@[i as int]);
            return false;
        }
        i = i + 1;
    }
    assert(a@ =~= b@);
    true
}

impl PartialEq for LogoResponse {
    fn eq(&self, other: &LogoResponse) -> (r: bool) {
        same_description(self, other)
    }
}

impl vstd::std_specs::cmp::PartialEqSpecImpl for LogoResponse {
    open spec fn obeys_eq_spec() -> bool {
        true
    }

    open spec fn eq_spec(&self, other: &LogoResponse) -> bool {
        self@ == other@
    }
}

/// The last logo description fetched. It starts empty; a candidate
/// replaces it only when it differs.
pub struct LogoCache {
    current: LogoResponse,
}

impl View for LogoCache {
    type V = Seq<Seq<Seq<Seq<char>>>>;

    closed spec fn view(&self) -> Seq<Seq<Seq<Seq<char>>>> {
        self.current@
    }
}

impl LogoCache {
    /// A cache holding the empty description.
    pub fn new() -> (c: LogoCache)
        ensures
            c@ == Seq::<Seq<Seq<Seq<char>>>>::empty(),
    {
        let c = LogoCache { current: LogoResponse { logo: Vec::new() } };
        assert(c@ =~= Seq::<Seq<Seq<Seq<char>>>>::empty());
        c
    }

    /// The cached description.
    pub fn description(&self) -> (r: &LogoResponse)
        ensures
            r@ == self@,
    {
        &self.current
    }

    /// Whether `candidate` differs from the cached description.
    pub fn is_changed(&self, candidate: &LogoResponse) -> (r: bool)
        ensures
            r == (candidate@ != self@),
    {
        !same_description(&self.current, candidate)
    }

    /// Stores `candidate`, dropping the previous description.
    pub fn replace(&mut self, candidate: LogoResponse)
        ensures
            final(self)@ == candidate@,
    {
        self.current = candidate;
    }

    /// Stores `candidate` if it differs from the cached description and
    /// says whether it did; an equal candidate leaves the cache as it was.
    pub fn swap_if_changed(&mut self, candidate: LogoResponse) -> (r: bool)
        ensures
            r == (candidate@ != old(self)@),
            r ==> final(self)@ == candidate@,
            !r ==> final(self)@ == old(self)@,
    {
        if self.is_changed(&candidate) {
            self.replace(candidate);
            true
        } else {
            false
        }
    }
}

} // verus!
