//! The signals of a running bypass, and what they say together.
use vstd::prelude::*;

use crate::platform::{bool_text, pid_text, ServiceState, TriCheck};
use crate::text::{cat3, parse_u32, split_whitespace};

verus! {

use crate::platform::{bool_word, pid_word};
use crate::text::{
    decimal, decimal_reads_back, is_digit, is_white, lemma_decimal, parsed, texts,
    white_space_ends_words, words_of,
};

/// The first process that `pgrep` has printed.
pub open spec fn first_pid(stdout: Seq<char>) -> Option<nat> {
    if words_of(stdout).len() == 0 {
        None
    } else {
        parsed(words_of(stdout)[0], u32::MAX as nat)
    }
}

/// The first process that `pgrep` has printed, one per line.
pub fn parse_first_pid(stdout: &str) -> (r: Option<u32>)
    ensures
        match r {
            Some(p) => first_pid(stdout@) == Some(p as nat),
            None => first_pid(stdout@) is None,
        },
{
    let words = split_whitespace(stdout);
    assert(texts(words@).len() == words@.len());
    if words.len() == 0 {
        return None;
    }
    assert(texts(words@)[0] == words@[0]@);
    parse_u32(words[0].as_str())
}

/// Whether the bypass runs: the unit is active, an engine is alive, and the rules are not
/// known to be missing. Rules that cannot be read are no objection.
pub open spec fn runs(svc: bool, pid: Option<u32>, rules: Option<bool>) -> bool {
    svc && pid is Some && rules != Some(false)
}

/// The warnings: signals that contradict each other are never passed over.
pub open spec fn contradictions(svc: bool, pid: Option<u32>, rules: Option<bool>) -> Seq<Seq<char>> {
    (if svc != pid is Some {
        seq![
            "расхождение: юнит active="@ + bool_word(svc) + ", nfqws жив="@ + bool_word(
                pid is Some,
            ) + " (pid="@ + pid_word(pid) + ")"@,
        ]
    } else {
        Seq::empty()
    }) + (if svc && pid is Some && rules == Some(false) {
        seq!["расхождение: юнит active + nfqws жив, но правил перехвата НЕТ"@]
    } else {
        Seq::empty()
    })
}

/// Whether the bypass really runs, by three independent signals: the state of the unit,
/// the process of the engine, and the rules (nothing where they cannot be read).
pub fn authoritative_running(state: ServiceState, pid: Option<u32>, rules: Option<bool>) -> (r:
    TriCheck)
    ensures
        r.running == runs(state is Running, pid, rules),
        texts(r.warnings@) == contradictions(state is Running, pid, rules),
{
    let svc = match state {
        ServiceState::Running => true,
        _ => false,
    };
    let alive = pid.is_some();
    let missing = match rules {
        Some(b) => !b,
        None => false,
    };
    let mut warnings: Vec<String> = Vec::new();
    if svc != alive {
        let mut s = cat3("расхождение: юнит active=", bool_text(svc), ", nfqws жив=");
        s.append(bool_text(alive));
        s.append(" (pid=");
        s.append(pid_text(pid).as_str());
        s.append(")");
        warnings.push(s);
    }
    if svc && alive && missing {
        warnings.push("расхождение: юнит active + nfqws жив, но правил перехвата НЕТ".to_owned());
    }
    assert(texts(warnings@) =~= contradictions(svc, pid, rules));
    TriCheck { running: svc && alive && !missing, warnings }
}

/// The bypass is never said to run without an active unit, without a live engine or with
/// rules that are known to be missing; and whenever the unit and the engine disagree, or
/// both are there and the rules are not, there is a warning.
pub proof fn no_silent_disagreement(svc: bool, pid: Option<u32>, rules: Option<bool>)
    ensures
        runs(svc, pid, rules) ==> svc && pid is Some && rules != Some(false),
        svc && pid is Some && rules != Some(false) ==> runs(svc, pid, rules),
        (svc || pid is Some) && !runs(svc, pid, rules) ==> contradictions(svc, pid, rules).len()
            > 0,
        runs(svc, pid, rules) ==> contradictions(svc, pid, rules).len() == 0,
{
}

/// The process that is reported is the one on the first line that `pgrep` prints, whatever
/// follows; an empty output reports none.
pub proof fn the_first_process_is_reported(n: u32, rest: Seq<char>)
    ensures
        first_pid(decimal(n as nat) + seq!['\n'] + rest) == Some(n as nat),
        first_pid(decimal(n as nat)) == Some(n as nat),
        first_pid(Seq::empty()) is None,
{
    let d = decimal(n as nat);
    let none = Seq::<char>::empty();
    lemma_decimal(n as nat);
    decimal_reads_back(n as nat, u32::MAX as nat);
    assert forall|i: int| 0 <= i < d.len() implies !is_white(#[trigger] d[i]) by {
        assert(is_digit(d[i]));
    }
    white_space_ends_words(none, d, '\n', rest);
    assert(none + d + seq!['\n'] + rest =~= d + seq!['\n'] + rest);
    assert(none + d =~= d);
}

} // verus!
