//! The strategy model that the interface, the orchestration and the auto-selection share.
use vstd::prelude::*;

use crate::text::{copy_opt, copy_strings, same};

verus! {

use crate::text::{opt_text, texts};

/// One strategy: a set of engine arguments under a human-readable name.
#[derive(Debug)]
pub struct Strategy {
    /// Human-readable name (of a batch file: its name without the extension).
    pub name: String,
    /// Group in the drop-down list: general, ALT, FAKE TLS, Simple Fake, ...
    pub group: String,
    /// Where it was taken from.
    pub source_path: String,
    /// The parsed arguments of the engine.
    pub args: Vec<String>,
    /// The argument string.
    pub raw_args: String,
    /// TCP ports to capture. Empty means the default ports of the engine. Tokens are
    /// single ports, ranges (`19294-19344`) and `%GameFilter*%`.
    pub wf_tcp: Vec<String>,
    /// UDP ports to capture, in the same form.
    pub wf_udp: Vec<String>,
}

/// A strategy as a mathematical value.
#[verifier::ext_equal]
pub struct StrategyView {
    pub name: Seq<char>,
    pub group: Seq<char>,
    pub source_path: Seq<char>,
    pub args: Seq<Seq<char>>,
    pub raw_args: Seq<char>,
    pub wf_tcp: Seq<Seq<char>>,
    pub wf_udp: Seq<Seq<char>>,
}

impl View for Strategy {
    type V = StrategyView;

    open spec fn view(&self) -> StrategyView {
        StrategyView {
            name: self.name@,
            group: self.group@,
            source_path: self.source_path@,
            args: texts(self.args@),
            raw_args: self.raw_args@,
            wf_tcp: texts(self.wf_tcp@),
            wf_udp: texts(self.wf_udp@),
        }
    }
}

impl Clone for Strategy {
    fn clone(&self) -> (r: Self)
        ensures
            r@ == self@,
    {
        Strategy {
            name: self.name.clone(),
            group: self.group.clone(),
            source_path: self.source_path.clone(),
            args: copy_strings(&self.args),
            raw_args: self.raw_args.clone(),
            wf_tcp: copy_strings(&self.wf_tcp),
            wf_udp: copy_strings(&self.wf_udp),
        }
    }
}

/// The strategies of a list as mathematical values.
pub open spec fn views(v: Seq<Strategy>) -> Seq<StrategyView> {
    Seq::new(v.len(), |i: int| v[i]@)
}

/// A copy of a list of strategies.
pub fn copy_strategies(list: &[Strategy]) -> (r: Vec<Strategy>)
    ensures
        views(r@) == views(list@),
{
    let mut v: Vec<Strategy> = Vec::new();
    let mut i: usize = 0;
    while i < list.len()
        invariant
            i <= list@.len(),
            v@.len() == i,
            forall|k: int| 0 <= k < i ==> (#[trigger] v@[k])@ == list@[k]@,
        decreases list@.len() - i,
    {
        v.push(list[i].clone());
        i += 1;
    }
    assert(views(v@) =~= views(list@));
    v
}

/// The outcome of scanning for the core and its strategies.
#[derive(Debug)]
pub struct CoreScan {
    /// The directory of the core, where there is one.
    pub core_dir: Option<String>,
    /// The strategies, sorted by group.
    pub strategies: Vec<Strategy>,
    /// Remarks for the log (skipped files and the like).
    pub messages: Vec<String>,
}

/// A scan as a mathematical value.
#[verifier::ext_equal]
pub struct CoreScanView {
    pub core_dir: Option<Seq<char>>,
    pub strategies: Seq<StrategyView>,
    pub messages: Seq<Seq<char>>,
}

impl View for CoreScan {
    type V = CoreScanView;

    open spec fn view(&self) -> CoreScanView {
        CoreScanView {
            core_dir: opt_text(self.core_dir),
            strategies: views(self.strategies@),
            messages: texts(self.messages@),
        }
    }
}

impl Clone for CoreScan {
    fn clone(&self) -> (r: Self)
        ensures
            r@ == self@,
    {
        CoreScan {
            core_dir: copy_opt(&self.core_dir),
            strategies: copy_strategies(&self.strategies),
            messages: copy_strings(&self.messages),
        }
    }
}

impl Default for CoreScan {
    /// Nothing found, nothing said.
    fn default() -> (r: Self)
        ensures
            r@ == (CoreScanView {
                core_dir: None,
                strategies: Seq::empty(),
                messages: Seq::empty(),
            }),
    {
        let r = CoreScan { core_dir: None, strategies: Vec::new(), messages: Vec::new() };
        assert(r@.strategies =~= Seq::<StrategyView>::empty());
        assert(r@.messages =~= Seq::<Seq<char>>::empty());
        r
    }
}

/// The position of the first strategy with a name.
pub open spec fn index_named(list: Seq<StrategyView>, name: Seq<char>) -> Option<int>
    decreases list.len(),
{
    if list.len() == 0 {
        None
    } else if list[0].name == name {
        Some(0)
    } else {
        match index_named(list.skip(1), name) {
            Some(i) => Some(i + 1),
            None => None,
        }
    }
}

/// Whether a strategy of that name is in the list.
pub open spec fn named(list: Seq<StrategyView>, name: Seq<char>) -> bool {
    exists|i: int| 0 <= i < list.len() && (#[trigger] list[i]).name == name
}

pub(crate) proof fn lemma_index_named(list: Seq<StrategyView>, name: Seq<char>)
    ensures
        index_named(list, name) is Some <==> named(list, name),
        index_named(list, name) matches Some(i) ==> 0 <= i < list.len() && list[i].name == name,
    decreases list.len(),
{
    if list.len() > 0 && list[0].name != name {
        let t = list.skip(1);
        lemma_index_named(t, name);
        if named(t, name) {
            let i = choose|i: int| 0 <= i < t.len() && (#[trigger] t[i]).name == name;
            assert(list[i + 1].name == name);
        }
        if named(list, name) {
            let i = choose|i: int| 0 <= i < list.len() && (#[trigger] list[i]).name == name;
            assert(t[i - 1].name == name);
        }
    } else if list.len() > 0 {
        assert(list[0].name == name);
    }
}

/// What is found under a name is the first strategy of that name: the one at `k` is found
/// where it has the name and no earlier one has it, and nothing is found where none has it.
pub proof fn the_first_of_a_name_is_found(list: Seq<StrategyView>, name: Seq<char>, k: int)
    ensures
        0 <= k < list.len() && list[k].name == name && (forall|j: int|
            0 <= j < k ==> (#[trigger] list[j]).name != name) <==> index_named(list, name)
            == Some(k),
        (forall|j: int| 0 <= j < list.len() ==> (#[trigger] list[j]).name != name)
            <==> index_named(list, name) is None,
    decreases list.len(),
{
    lemma_index_named(list, name);
    if list.len() > 0 && list[0].name != name {
        let t = list.skip(1);
        the_first_of_a_name_is_found(t, name, k - 1);
        assert forall|j: int| 0 <= j < t.len() implies #[trigger] t[j] == list[j + 1] by {}
        if index_named(list, name) == Some(k) {
            assert forall|j: int| 0 <= j < k implies (#[trigger] list[j]).name != name by {
                if j > 0 {
                    assert(t[j - 1] == list[j]);
                }
            }
        }
    } else if list.len() > 0 && index_named(list, name) == Some(k) {
        assert(k == 0);
    } else if list.len() > 0 && 0 <= k < list.len() {
        assert(list[0].name == name);
    }
}

/// The position of the first strategy with a name.
pub fn find_named(list: &[Strategy], name: &str) -> (r: Option<usize>)
    ensures
        match r {
            Some(i) => index_named(views(list@), name@) == Some(i as int) && i < list@.len()
                && list@[i as int].name@ == name@,
            None => index_named(views(list@), name@) is None && forall|i: int|
                0 <= i < list@.len() ==> (#[trigger] list@[i]).name@ != name@,
        },
{
    let ghost all = views(list@);
    let mut i: usize = 0;
    assert(all.skip(0) =~= all);
    while i < list.len()
        invariant
            i <= list@.len(),
            all == views(list@),
            index_named(all, name@) == (match index_named(all.skip(i as int), name@) {
                Some(k) => Some(k + i),
                None => None,
            }),
            forall|k: int| 0 <= k < i ==> (#[trigger] list@[k]).name@ != name@,
        decreases list@.len() - i,
    {
        assert(all.skip(i as int)[0] == list@[i as int]@);
        assert(all.skip(i as int).skip(1) =~= all.skip(i + 1));
        if same(list[i].name.as_str(), name) {
            return Some(i);
        }
        i += 1;
    }
    None
}

} // verus!
