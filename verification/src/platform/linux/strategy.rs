//! Where the strategies of Linux come from.
//!
//! The strategies of a Flowseal core (`general*.bat`) come first. Where there are none,
//! a built-in set stands in, which needs no lists and no payload files. The number of the
//! queue is added by the engine and is never part of a strategy.
use vstd::prelude::*;

use crate::bat::{is_general_bat, parse_flowseal, sort_strategies};
use crate::order::{sort_by_keys, SortKey};
use crate::strategies::{CoreScan, Strategy};
use crate::text::{cat, cat3, decimal_text, occurs, join, replace, strings};

verus! {

use crate::bat::{
    flowseal, general_bat, natural, rank_of, strategy_key, strategy_keys, strategy_name,
};
use crate::order::{keys_view, parts_view, sorted_stably, KeyView};
use crate::strategies::{views, CoreScanView, StrategyView};
use crate::text::{
    begins, contains, decimal, disjoint, joined, opt_str, replaced,
    replacing_brings_nothing_foreign, replacing_what_is_absent, slices, text_of, texts,
};

/// The range of the ports that games use.
pub const GAME_PORTS: &'static str = "1024-65535";

// ── The built-in set ────────────────────────────────────────────────────────

/// A built-in strategy: no source, and the ports to capture are those of the engine.
pub open spec fn preset_of(
    name: Seq<char>,
    group: Seq<char>,
    args: Seq<Seq<char>>,
) -> StrategyView {
    StrategyView {
        name,
        group,
        source_path: Seq::empty(),
        args,
        raw_args: joined(args, " "@),
        wf_tcp: Seq::empty(),
        wf_udp: Seq::empty(),
    }
}

/// The built-in strategies. Each has three profiles, which `--new` separates: HTTP, TLS
/// and QUIC.
pub open spec fn preset(i: int) -> StrategyView {
    if i == 0 {
        preset_of(
            "general"@,
            "general"@,
            seq![
                "--filter-tcp=80"@, "--dpi-desync=fake,multisplit"@,
                "--dpi-desync-split-pos=method+2"@, "--dpi-desync-fooling=md5sig"@, "--new"@,
                "--filter-tcp=443"@, "--dpi-desync=fake,multidisorder"@,
                "--dpi-desync-split-pos=1,midsld"@, "--dpi-desync-repeats=6"@,
                "--dpi-desync-fooling=md5sig"@, "--new"@, "--filter-udp=443"@,
                "--dpi-desync=fake"@, "--dpi-desync-repeats=6"@,
            ],
        )
    } else if i == 1 {
        preset_of(
            "TTL fake (ttl=1)"@,
            "TTL (fake)"@,
            seq![
                "--filter-tcp=80"@, "--dpi-desync=fake,fakedsplit"@, "--dpi-desync-ttl=1"@,
                "--new"@, "--filter-tcp=443"@, "--dpi-desync=fake,multidisorder"@,
                "--dpi-desync-split-pos=1,midsld"@, "--dpi-desync-ttl=1"@, "--new"@,
                "--filter-udp=443"@, "--dpi-desync=fake"@, "--dpi-desync-ttl=1"@,
                "--dpi-desync-repeats=6"@,
            ],
        )
    } else if i == 2 {
        preset_of(
            "TTL fake (ttl=2)"@,
            "TTL (fake)"@,
            seq![
                "--filter-tcp=80"@, "--dpi-desync=fake,fakedsplit"@, "--dpi-desync-ttl=2"@,
                "--new"@, "--filter-tcp=443"@, "--dpi-desync=fake,multidisorder"@,
                "--dpi-desync-split-pos=1,midsld"@, "--dpi-desync-ttl=2"@, "--new"@,
                "--filter-udp=443"@, "--dpi-desync=fake"@, "--dpi-desync-ttl=2"@,
                "--dpi-desync-repeats=6"@,
            ],
        )
    } else if i == 3 {
        preset_of(
            "TTL fake (autottl)"@,
            "TTL (fake)"@,
            seq![
                "--filter-tcp=80"@, "--dpi-desync=fake,fakedsplit"@, "--dpi-desync-autottl"@,
                "--new"@, "--filter-tcp=443"@, "--dpi-desync=fake,multidisorder"@,
                "--dpi-desync-split-pos=1,midsld"@, "--dpi-desync-autottl"@, "--new"@,
                "--filter-udp=443"@, "--dpi-desync=fake"@, "--dpi-desync-autottl"@,
                "--dpi-desync-repeats=6"@,
            ],
        )
    } else if i == 4 {
        preset_of(
            "Discord (ttl=1 + quic/stun)"@,
            "TTL (fake)"@,
            seq![
                "--filter-tcp=80"@, "--dpi-desync=fake,fakedsplit"@, "--dpi-desync-ttl=1"@,
                "--new"@, "--filter-tcp=443"@, "--dpi-desync=fake,multidisorder"@,
                "--dpi-desync-split-pos=1,midsld"@, "--dpi-desync-ttl=1"@,
                "--dpi-desync-fake-tls-mod=rnd,dupsid"@, "--new"@, "--filter-udp=443"@,
                "--filter-l7=quic,discord,stun"@, "--dpi-desync=fake"@, "--dpi-desync-ttl=1"@,
                "--dpi-desync-repeats=8"@,
            ],
        )
    } else if i == 5 {
        preset_of(
            "general (ALT)"@,
            "ALT"@,
            seq![
                "--filter-tcp=80"@, "--dpi-desync=fake,split2"@, "--dpi-desync-autottl=2"@,
                "--dpi-desync-fooling=badseq"@, "--new"@, "--filter-tcp=443"@,
                "--dpi-desync=fake,disorder2"@, "--dpi-desync-autottl=2"@,
                "--dpi-desync-fooling=badseq"@, "--dpi-desync-repeats=6"@, "--new"@,
                "--filter-udp=443"@, "--dpi-desync=fake"@, "--dpi-desync-repeats=8"@,
            ],
        )
    } else if i == 6 {
        preset_of(
            "general (ALT2)"@,
            "ALT"@,
            seq![
                "--filter-tcp=80"@, "--dpi-desync=fakedsplit"@, "--dpi-desync-split-pos=2"@,
                "--dpi-desync-fooling=md5sig"@, "--new"@, "--filter-tcp=443"@,
                "--dpi-desync=fake,multidisorder"@, "--dpi-desync-split-pos=midsld"@,
                "--dpi-desync-fooling=md5sig"@, "--dpi-desync-repeats=8"@, "--new"@,
                "--filter-udp=443"@, "--dpi-desync=fake"@, "--dpi-desync-repeats=8"@,
            ],
        )
    } else if i == 7 {
        preset_of(
            "general (MGTS)"@,
            "ALT"@,
            seq![
                "--filter-tcp=80"@, "--dpi-desync=fake,fakedsplit"@, "--dpi-desync-ttl=1"@,
                "--new"@, "--filter-tcp=443"@, "--dpi-desync=fake,multidisorder"@,
                "--dpi-desync-split-pos=midsld"@, "--dpi-desync-ttl=1"@, "--new"@,
                "--filter-udp=443"@, "--dpi-desync=fake"@, "--dpi-desync-repeats=6"@,
            ],
        )
    } else if i == 8 {
        preset_of(
            "general (FAKE TLS)"@,
            "FAKE TLS"@,
            seq![
                "--filter-tcp=80"@, "--dpi-desync=fake,multisplit"@,
                "--dpi-desync-split-pos=method+2"@, "--dpi-desync-fooling=md5sig"@, "--new"@,
                "--filter-tcp=443"@, "--dpi-desync=fake,multisplit"@,
                "--dpi-desync-split-pos=1,midsld"@, "--dpi-desync-fooling=md5sig"@,
                "--dpi-desync-repeats=6"@, "--new"@, "--filter-udp=443"@, "--dpi-desync=fake"@,
                "--dpi-desync-repeats=6"@,
            ],
        )
    } else if i == 9 {
        preset_of(
            "Simple Fake (TTL)"@,
            "Simple Fake"@,
            seq![
                "--filter-tcp=80"@, "--dpi-desync=fake"@, "--dpi-desync-ttl=4"@, "--new"@,
                "--filter-tcp=443"@, "--dpi-desync=fake"@, "--dpi-desync-ttl=4"@, "--new"@,
                "--filter-udp=443"@, "--dpi-desync=fake"@, "--dpi-desync-ttl=4"@,
            ],
        )
    } else {
        preset_of(
            "Simple Fake (badseq)"@,
            "Simple Fake"@,
            seq![
                "--filter-tcp=80"@, "--dpi-desync=fake"@, "--dpi-desync-fooling=badseq"@,
                "--new"@, "--filter-tcp=443"@, "--dpi-desync=fake"@,
                "--dpi-desync-fooling=badseq"@, "--dpi-desync-repeats=6"@, "--new"@,
                "--filter-udp=443"@, "--dpi-desync=fake"@, "--dpi-desync-repeats=6"@,
            ],
        )
    }
}

/// All built-in strategies.
pub open spec fn curated_set() -> Seq<StrategyView> {
    Seq::new(11, |i: int| preset(i))
}

fn builtin(name: &str, group: &str, args: &[&str]) -> (r: Strategy)
    ensures
        r@ == preset_of(name@, group@, slices(args@)),
{
    let list = strings(args);
    let raw_args = join(&list, " ");
    let r = Strategy {
        name: name.to_owned(),
        group: group.to_owned(),
        source_path: String::new(),
        args: list,
        raw_args,
        wf_tcp: Vec::new(),
        wf_udp: Vec::new(),
    };
    assert(r@ =~~= preset_of(name@, group@, slices(args@)));
    r
}

fn build_preset(i: usize) -> (r: Strategy)
    requires
        i < 11,
    ensures
        r@ == preset(i as int),
{
    if i == 0 {
        let r = builtin(
            "general",
            "general",
            &[
                "--filter-tcp=80", "--dpi-desync=fake,multisplit",
                "--dpi-desync-split-pos=method+2", "--dpi-desync-fooling=md5sig", "--new",
                "--filter-tcp=443", "--dpi-desync=fake,multidisorder",
                "--dpi-desync-split-pos=1,midsld", "--dpi-desync-repeats=6",
                "--dpi-desync-fooling=md5sig", "--new", "--filter-udp=443",
                "--dpi-desync=fake", "--dpi-desync-repeats=6",
            ],
        );
        assert(r@.args =~= preset(0).args);
        r
    } else if i == 1 {
        let r = builtin(
            "TTL fake (ttl=1)",
            "TTL (fake)",
            &[
                "--filter-tcp=80", "--dpi-desync=fake,fakedsplit", "--dpi-desync-ttl=1",
                "--new", "--filter-tcp=443", "--dpi-desync=fake,multidisorder",
                "--dpi-desync-split-pos=1,midsld", "--dpi-desync-ttl=1", "--new",
                "--filter-udp=443", "--dpi-desync=fake", "--dpi-desync-ttl=1",
                "--dpi-desync-repeats=6",
            ],
        );
        assert(r@.args =~= preset(1).args);
        r
    } else if i == 2 {
        let r = builtin(
            "TTL fake (ttl=2)",
            "TTL (fake)",
            &[
                "--filter-tcp=80", "--dpi-desync=fake,fakedsplit", "--dpi-desync-ttl=2",
                "--new", "--filter-tcp=443", "--dpi-desync=fake,multidisorder",
                "--dpi-desync-split-pos=1,midsld", "--dpi-desync-ttl=2", "--new",
                "--filter-udp=443", "--dpi-desync=fake", "--dpi-desync-ttl=2",
                "--dpi-desync-repeats=6",
            ],
        );
        assert(r@.args =~= preset(2).args);
        r
    } else if i == 3 {
        let r = builtin(
            "TTL fake (autottl)",
            "TTL (fake)",
            &[
                "--filter-tcp=80", "--dpi-desync=fake,fakedsplit", "--dpi-desync-autottl",
                "--new", "--filter-tcp=443", "--dpi-desync=fake,multidisorder",
                "--dpi-desync-split-pos=1,midsld", "--dpi-desync-autottl", "--new",
                "--filter-udp=443", "--dpi-desync=fake", "--dpi-desync-autottl",
                "--dpi-desync-repeats=6",
            ],
        );
        assert(r@.args =~= preset(3).args);
        r
    } else if i == 4 {
        let r = builtin(
            "Discord (ttl=1 + quic/stun)",
            "TTL (fake)",
            &[
                "--filter-tcp=80", "--dpi-desync=fake,fakedsplit", "--dpi-desync-ttl=1",
                "--new", "--filter-tcp=443", "--dpi-desync=fake,multidisorder",
                "--dpi-desync-split-pos=1,midsld", "--dpi-desync-ttl=1",
                "--dpi-desync-fake-tls-mod=rnd,dupsid", "--new", "--filter-udp=443",
                "--filter-l7=quic,discord,stun", "--dpi-desync=fake", "--dpi-desync-ttl=1",
                "--dpi-desync-repeats=8",
            ],
        );
        assert(r@.args =~= preset(4).args);
        r
    } else if i == 5 {
        let r = builtin(
            "general (ALT)",
            "ALT",
            &[
                "--filter-tcp=80", "--dpi-desync=fake,split2", "--dpi-desync-autottl=2",
                "--dpi-desync-fooling=badseq", "--new", "--filter-tcp=443",
                "--dpi-desync=fake,disorder2", "--dpi-desync-autottl=2",
                "--dpi-desync-fooling=badseq", "--dpi-desync-repeats=6", "--new",
                "--filter-udp=443", "--dpi-desync=fake", "--dpi-desync-repeats=8",
            ],
        );
        assert(r@.args =~= preset(5).args);
        r
    } else if i == 6 {
        let r = builtin(
            "general (ALT2)",
            "ALT",
            &[
                "--filter-tcp=80", "--dpi-desync=fakedsplit", "--dpi-desync-split-pos=2",
                "--dpi-desync-fooling=md5sig", "--new", "--filter-tcp=443",
                "--dpi-desync=fake,multidisorder", "--dpi-desync-split-pos=midsld",
                "--dpi-desync-fooling=md5sig", "--dpi-desync-repeats=8", "--new",
                "--filter-udp=443", "--dpi-desync=fake", "--dpi-desync-repeats=8",
            ],
        );
        assert(r@.args =~= preset(6).args);
        r
    } else if i == 7 {
        let r = builtin(
            "general (MGTS)",
            "ALT",
            &[
                "--filter-tcp=80", "--dpi-desync=fake,fakedsplit", "--dpi-desync-ttl=1",
                "--new", "--filter-tcp=443", "--dpi-desync=fake,multidisorder",
                "--dpi-desync-split-pos=midsld", "--dpi-desync-ttl=1", "--new",
                "--filter-udp=443", "--dpi-desync=fake", "--dpi-desync-repeats=6",
            ],
        );
        assert(r@.args =~= preset(7).args);
        r
    } else if i == 8 {
        let r = builtin(
            "general (FAKE TLS)",
            "FAKE TLS",
            &[
                "--filter-tcp=80", "--dpi-desync=fake,multisplit",
                "--dpi-desync-split-pos=method+2", "--dpi-desync-fooling=md5sig", "--new",
                "--filter-tcp=443", "--dpi-desync=fake,multisplit",
                "--dpi-desync-split-pos=1,midsld", "--dpi-desync-fooling=md5sig",
                "--dpi-desync-repeats=6", "--new", "--filter-udp=443", "--dpi-desync=fake",
                "--dpi-desync-repeats=6",
            ],
        );
        assert(r@.args =~= preset(8).args);
        r
    } else if i == 9 {
        let r = builtin(
            "Simple Fake (TTL)",
            "Simple Fake",
            &[
                "--filter-tcp=80", "--dpi-desync=fake", "--dpi-desync-ttl=4", "--new",
                "--filter-tcp=443", "--dpi-desync=fake", "--dpi-desync-ttl=4", "--new",
                "--filter-udp=443", "--dpi-desync=fake", "--dpi-desync-ttl=4",
            ],
        );
        assert(r@.args =~= preset(9).args);
        r
    } else {
        let r = builtin(
            "Simple Fake (badseq)",
            "Simple Fake",
            &[
                "--filter-tcp=80", "--dpi-desync=fake", "--dpi-desync-fooling=badseq", "--new",
                "--filter-tcp=443", "--dpi-desync=fake", "--dpi-desync-fooling=badseq",
                "--dpi-desync-repeats=6", "--new", "--filter-udp=443", "--dpi-desync=fake",
                "--dpi-desync-repeats=6",
            ],
        );
        assert(r@.args =~= preset(10).args);
        r
    }
}

/// The built-in strategies.
pub fn curated() -> (r: Vec<Strategy>)
    ensures
        views(r@) == curated_set(),
{
    let mut v: Vec<Strategy> = Vec::new();
    let mut i: usize = 0;
    while i < 11
        invariant
            i <= 11,
            v@.len() == i,
            forall|k: int| 0 <= k < i ==> (#[trigger] v@[k])@ == preset(k),
        decreases 11 - i,
    {
        v.push(build_preset(i));
        i += 1;
    }
    assert(views(v@) =~= curated_set());
    v
}

/// From position `i` on, no two hyphens stand side by side.
spec fn clean_from(s: Seq<char>, i: int) -> bool
    decreases s.len() - i,
{
    i + 1 >= s.len() || (!(s[i] == '-' && s[i + 1] == '-') && clean_from(s, i + 1))
}

/// Two hyphens stand at most at the beginning, and no `q` follows them.
spec fn plain(s: Seq<char>) -> bool {
    s.len() >= 3 && s[2] != 'q' && clean_from(s, 1)
}

proof fn lemma_clean_from(s: Seq<char>, i: int, j: int)
    requires
        clean_from(s, i),
        i <= j,
        j + 1 < s.len(),
    ensures
        !(s[j] == '-' && s[j + 1] == '-'),
    decreases j - i,
{
    if i < j {
        lemma_clean_from(s, i + 1, j);
    }
}

proof fn lemma_plain(s: Seq<char>)
    requires
        plain(s),
    ensures
        !contains(s, "--qnum"@),
{
    reveal_strlit("--qnum");
    let pat = "--qnum"@;
    assert(pat.len() == 6 && pat[0] == '-' && pat[1] == '-' && pat[2] == 'q');
    assert forall|i: int| !crate::text::at(s, i, pat) by {
        if crate::text::at(s, i, pat) {
            let t = s.subrange(i, i + 6);
            assert(t[0] == s[i] && t[1] == s[i + 1] && t[2] == s[i + 2]);
            if i > 0 {
                lemma_clean_from(s, 1, i);
            }
        }
    }
}

proof fn lemma_curated_plain(i: int)
    requires
        0 <= i < 11,
    ensures
        forall|k: int| 0 <= k < preset(i).args.len() ==> plain(#[trigger] preset(i).args[k]),
{
    assert(plain("--filter-tcp=80"@)) by {
        reveal_strlit("--filter-tcp=80");
        reveal_with_fuel(clean_from, 16);
    }
    assert(plain("--dpi-desync=fake,multisplit"@)) by {
        reveal_strlit("--dpi-desync=fake,multisplit");
        reveal_with_fuel(clean_from, 29);
    }
    assert(plain("--dpi-desync-split-pos=method+2"@)) by {
        reveal_strlit("--dpi-desync-split-pos=method+2");
        reveal_with_fuel(clean_from, 32);
    }
    assert(plain("--dpi-desync-fooling=md5sig"@)) by {
        reveal_strlit("--dpi-desync-fooling=md5sig");
        reveal_with_fuel(clean_from, 28);
    }
    assert(plain("--new"@)) by {
        reveal_strlit("--new");
        reveal_with_fuel(clean_from, 6);
    }
    assert(plain("--filter-tcp=443"@)) by {
        reveal_strlit("--filter-tcp=443");
        reveal_with_fuel(clean_from, 17);
    }
    assert(plain("--dpi-desync=fake,multidisorder"@)) by {
        reveal_strlit("--dpi-desync=fake,multidisorder");
        reveal_with_fuel(clean_from, 32);
    }
    assert(plain("--dpi-desync-split-pos=1,midsld"@)) by {
        reveal_strlit("--dpi-desync-split-pos=1,midsld");
        reveal_with_fuel(clean_from, 32);
    }
    assert(plain("--dpi-desync-repeats=6"@)) by {
        reveal_strlit("--dpi-desync-repeats=6");
        reveal_with_fuel(clean_from, 23);
    }
    assert(plain("--filter-udp=443"@)) by {
        reveal_strlit("--filter-udp=443");
        reveal_with_fuel(clean_from, 17);
    }
    assert(plain("--dpi-desync=fake"@)) by {
        reveal_strlit("--dpi-desync=fake");
        reveal_with_fuel(clean_from, 18);
    }
    assert(plain("--dpi-desync=fake,fakedsplit"@)) by {
        reveal_strlit("--dpi-desync=fake,fakedsplit");
        reveal_with_fuel(clean_from, 29);
    }
    assert(plain("--dpi-desync-ttl=1"@)) by {
        reveal_strlit("--dpi-desync-ttl=1");
        reveal_with_fuel(clean_from, 19);
    }
    assert(plain("--dpi-desync-ttl=2"@)) by {
        reveal_strlit("--dpi-desync-ttl=2");
        reveal_with_fuel(clean_from, 19);
    }
    assert(plain("--dpi-desync-autottl"@)) by {
        reveal_strlit("--dpi-desync-autottl");
        reveal_with_fuel(clean_from, 21);
    }
    assert(plain("--dpi-desync-fake-tls-mod=rnd,dupsid"@)) by {
        reveal_strlit("--dpi-desync-fake-tls-mod=rnd,dupsid");
        reveal_with_fuel(clean_from, 37);
    }
    assert(plain("--filter-l7=quic,discord,stun"@)) by {
        reveal_strlit("--filter-l7=quic,discord,stun");
        reveal_with_fuel(clean_from, 30);
    }
    assert(plain("--dpi-desync-repeats=8"@)) by {
        reveal_strlit("--dpi-desync-repeats=8");
        reveal_with_fuel(clean_from, 23);
    }
    assert(plain("--dpi-desync=fake,split2"@)) by {
        reveal_strlit("--dpi-desync=fake,split2");
        reveal_with_fuel(clean_from, 25);
    }
    assert(plain("--dpi-desync-autottl=2"@)) by {
        reveal_strlit("--dpi-desync-autottl=2");
        reveal_with_fuel(clean_from, 23);
    }
    assert(plain("--dpi-desync-fooling=badseq"@)) by {
        reveal_strlit("--dpi-desync-fooling=badseq");
        reveal_with_fuel(clean_from, 28);
    }
    assert(plain("--dpi-desync=fake,disorder2"@)) by {
        reveal_strlit("--dpi-desync=fake,disorder2");
        reveal_with_fuel(clean_from, 28);
    }
    assert(plain("--dpi-desync=fakedsplit"@)) by {
        reveal_strlit("--dpi-desync=fakedsplit");
        reveal_with_fuel(clean_from, 24);
    }
    assert(plain("--dpi-desync-split-pos=2"@)) by {
        reveal_strlit("--dpi-desync-split-pos=2");
        reveal_with_fuel(clean_from, 25);
    }
    assert(plain("--dpi-desync-split-pos=midsld"@)) by {
        reveal_strlit("--dpi-desync-split-pos=midsld");
        reveal_with_fuel(clean_from, 30);
    }
    assert(plain("--dpi-desync-ttl=4"@)) by {
        reveal_strlit("--dpi-desync-ttl=4");
        reveal_with_fuel(clean_from, 19);
    }
}

proof fn lemma_curated_desync(i: int)
    requires
        0 <= i < 11,
    ensures
        exists|k: int|
            0 <= k < preset(i).args.len() && begins(#[trigger] preset(i).args[k], "--dpi-desync"@),
{
    assert(begins(preset(0).args[1], "--dpi-desync"@)) by {
        reveal_strlit("--dpi-desync=fake,multisplit");
        reveal_strlit("--dpi-desync");
        assert("--dpi-desync=fake,multisplit"@.take(12) =~= "--dpi-desync"@);
    }
    assert(begins(preset(1).args[1], "--dpi-desync"@)) by {
        reveal_strlit("--dpi-desync=fake,fakedsplit");
        reveal_strlit("--dpi-desync");
        assert("--dpi-desync=fake,fakedsplit"@.take(12) =~= "--dpi-desync"@);
    }
    assert(begins(preset(2).args[1], "--dpi-desync"@)) by {
        reveal_strlit("--dpi-desync=fake,fakedsplit");
        reveal_strlit("--dpi-desync");
        assert("--dpi-desync=fake,fakedsplit"@.take(12) =~= "--dpi-desync"@);
    }
    assert(begins(preset(3).args[1], "--dpi-desync"@)) by {
        reveal_strlit("--dpi-desync=fake,fakedsplit");
        reveal_strlit("--dpi-desync");
        assert("--dpi-desync=fake,fakedsplit"@.take(12) =~= "--dpi-desync"@);
    }
    assert(begins(preset(4).args[1], "--dpi-desync"@)) by {
        reveal_strlit("--dpi-desync=fake,fakedsplit");
        reveal_strlit("--dpi-desync");
        assert("--dpi-desync=fake,fakedsplit"@.take(12) =~= "--dpi-desync"@);
    }
    assert(begins(preset(5).args[1], "--dpi-desync"@)) by {
        reveal_strlit("--dpi-desync=fake,split2");
        reveal_strlit("--dpi-desync");
        assert("--dpi-desync=fake,split2"@.take(12) =~= "--dpi-desync"@);
    }
    assert(begins(preset(6).args[1], "--dpi-desync"@)) by {
        reveal_strlit("--dpi-desync=fakedsplit");
        reveal_strlit("--dpi-desync");
        assert("--dpi-desync=fakedsplit"@.take(12) =~= "--dpi-desync"@);
    }
    assert(begins(preset(7).args[1], "--dpi-desync"@)) by {
        reveal_strlit("--dpi-desync=fake,fakedsplit");
        reveal_strlit("--dpi-desync");
        assert("--dpi-desync=fake,fakedsplit"@.take(12) =~= "--dpi-desync"@);
    }
    assert(begins(preset(8).args[1], "--dpi-desync"@)) by {
        reveal_strlit("--dpi-desync=fake,multisplit");
        reveal_strlit("--dpi-desync");
        assert("--dpi-desync=fake,multisplit"@.take(12) =~= "--dpi-desync"@);
    }
    assert(begins(preset(9).args[1], "--dpi-desync"@)) by {
        reveal_strlit("--dpi-desync=fake");
        reveal_strlit("--dpi-desync");
        assert("--dpi-desync=fake"@.take(12) =~= "--dpi-desync"@);
    }
    assert(begins(preset(10).args[1], "--dpi-desync"@)) by {
        reveal_strlit("--dpi-desync=fake");
        reveal_strlit("--dpi-desync");
        assert("--dpi-desync=fake"@.take(12) =~= "--dpi-desync"@);
    }
}

proof fn lemma_curated_named(i: int)
    requires
        0 <= i < 11,
    ensures
        preset(i).name.len() > 0,
        preset(i).group.len() > 0,
{
    reveal_strlit("general");
    reveal_strlit("TTL fake (ttl=1)");
    reveal_strlit("TTL fake (ttl=2)");
    reveal_strlit("TTL fake (autottl)");
    reveal_strlit("Discord (ttl=1 + quic/stun)");
    reveal_strlit("general (ALT)");
    reveal_strlit("general (ALT2)");
    reveal_strlit("general (MGTS)");
    reveal_strlit("general (FAKE TLS)");
    reveal_strlit("Simple Fake (TTL)");
    reveal_strlit("Simple Fake (badseq)");
    reveal_strlit("TTL (fake)");
    reveal_strlit("ALT");
    reveal_strlit("FAKE TLS");
    reveal_strlit("Simple Fake");
}

/// Every built-in strategy has a name, a group and arguments; one of these is a desync
/// flag, and none of them names the queue, which is for the engine to add.
pub proof fn curated_is_well_formed(i: int)
    requires
        0 <= i < curated_set().len(),
    ensures
        curated_set()[i].name.len() > 0,
        curated_set()[i].group.len() > 0,
        exists|k: int|
            0 <= k < curated_set()[i].args.len() && begins(
                #[trigger] curated_set()[i].args[k],
                "--dpi-desync"@,
            ),
        forall|k: int|
            0 <= k < curated_set()[i].args.len() ==> !contains(
                #[trigger] curated_set()[i].args[k],
                "--qnum"@,
            ),
{
    lemma_curated_named(i);
    lemma_curated_desync(i);
    lemma_curated_plain(i);
    assert(curated_set()[i] == preset(i));
    assert forall|k: int| 0 <= k < preset(i).args.len() implies !contains(
        #[trigger] preset(i).args[k],
        "--qnum"@,
    ) by {
        lemma_plain(preset(i).args[k]);
    }
}

// ── Game filter ─────────────────────────────────────────────────────────────

/// What stands for `%GameFilter*%`: the ports of games, or a port that nothing uses.
pub open spec fn filter_value(on: bool) -> Seq<char> {
    if on {
        GAME_PORTS@
    } else {
        "12"@
    }
}

/// What stands for `%GameFilter*%`.
pub fn game_filter_value(on: bool) -> (r: &'static str)
    ensures
        r@ == filter_value(on),
{
    if on {
        GAME_PORTS
    } else {
        "12"
    }
}

/// An argument with the game filter put in.
pub open spec fn filtered(a: Seq<char>, value: Seq<char>) -> Seq<char> {
    replaced(
        replaced(replaced(a, "%GameFilterTCP%"@, value), "%GameFilterUDP%"@, value),
        "%GameFilter%"@,
        value,
    )
}

/// Arguments with the game filter put in.
pub open spec fn all_filtered(args: Seq<Seq<char>>, on: bool) -> Seq<Seq<char>> {
    Seq::new(args.len(), |i: int| filtered(args[i], filter_value(on)))
}

/// Puts the game filter into the arguments of a strategy.
pub fn resolve_game_filter(args: &[String], on: bool) -> (r: Vec<String>)
    ensures
        texts(r@) == all_filtered(texts(args@), on),
{
    let value = game_filter_value(on);
    let mut v: Vec<String> = Vec::new();
    let mut i: usize = 0;
    proof {
        lemma_placeholders();
    }
    while i < args.len()
        invariant
            i <= args@.len(),
            v@.len() == i,
            value@ == filter_value(on),
            "%GameFilterTCP%"@.len() > 0,
            "%GameFilterUDP%"@.len() > 0,
            "%GameFilter%"@.len() > 0,
            forall|k: int| 0 <= k < i ==> (#[trigger] v@[k])@ == filtered(args@[k]@, value@),
        decreases args@.len() - i,
    {
        let a = replace(args[i].as_str(), "%GameFilterTCP%", value);
        let b = replace(a.as_str(), "%GameFilterUDP%", value);
        v.push(replace(b.as_str(), "%GameFilter%", value));
        i += 1;
    }
    assert(texts(v@) =~= all_filtered(texts(args@), on));
    v
}

/// One of the three places of the game filter.
pub open spec fn has_placeholder(a: Seq<char>) -> bool {
    contains(a, "%GameFilterTCP%"@) || contains(a, "%GameFilterUDP%"@) || contains(
        a,
        "%GameFilter%"@,
    )
}

proof fn lemma_placeholders()
    ensures
        "%GameFilterTCP%"@.len() == 15,
        "%GameFilterUDP%"@.len() == 15,
        "%GameFilter%"@.len() == 12,
        forall|on: bool| (#[trigger] filter_value(on)).len() > 0,
        forall|on: bool| disjoint("%GameFilterTCP%"@, #[trigger] filter_value(on)),
        forall|on: bool| disjoint("%GameFilterUDP%"@, #[trigger] filter_value(on)),
        forall|on: bool| disjoint("%GameFilter%"@, #[trigger] filter_value(on)),
{
    reveal_strlit("%GameFilterTCP%");
    reveal_strlit("%GameFilterUDP%");
    reveal_strlit("%GameFilter%");
    reveal_strlit("12");
    reveal_strlit("1024-65535");
    assert forall|on: bool, i: int| 0 <= i < filter_value(on).len() implies {
        let c = #[trigger] filter_value(on)[i];
        crate::text::is_digit(c) || c == '-'
    } by {}
    assert forall|i: int| 0 <= i < 15 implies !crate::text::is_digit(
        #[trigger] "%GameFilterTCP%"@[i],
    ) && "%GameFilterTCP%"@[i] != '-' by {}
    assert forall|i: int| 0 <= i < 15 implies !crate::text::is_digit(
        #[trigger] "%GameFilterUDP%"@[i],
    ) && "%GameFilterUDP%"@[i] != '-' by {}
    assert forall|i: int| 0 <= i < 12 implies !crate::text::is_digit(
        #[trigger] "%GameFilter%"@[i],
    ) && "%GameFilter%"@[i] != '-' by {}
}

/// Once the game filter is put in, no place for it is left; putting it in again, whatever
/// the switch says then, changes nothing. An argument without such a place is not changed.
pub proof fn game_filter_is_settled(a: Seq<char>, on: bool, again: bool)
    ensures
        !has_placeholder(filtered(a, filter_value(on))),
        filtered(filtered(a, filter_value(on)), filter_value(again)) == filtered(
            a,
            filter_value(on),
        ),
        !has_placeholder(a) ==> filtered(a, filter_value(on)) == a,
{
    lemma_placeholders();
    let v = filter_value(on);
    let t = "%GameFilterTCP%"@;
    let u = "%GameFilterUDP%"@;
    let g = "%GameFilter%"@;
    let b = replaced(a, t, v);
    let c = replaced(b, u, v);
    let d = replaced(c, g, v);
    replacing_brings_nothing_foreign(a, t, v, t);
    replacing_brings_nothing_foreign(b, u, v, u);
    replacing_brings_nothing_foreign(b, u, v, t);
    replacing_brings_nothing_foreign(c, g, v, g);
    replacing_brings_nothing_foreign(c, g, v, t);
    replacing_brings_nothing_foreign(c, g, v, u);
    let w = filter_value(again);
    replacing_what_is_absent(d, t, w);
    replacing_what_is_absent(d, u, w);
    replacing_what_is_absent(d, g, w);
    if !has_placeholder(a) {
        replacing_what_is_absent(a, t, v);
        replacing_what_is_absent(a, u, v);
        replacing_what_is_absent(a, g, v);
    }
}

// ── Ports to capture ────────────────────────────────────────────────────────

/// The ports with the game filter put in: a token of the filter becomes the ports of
/// games, or leaves.
pub open spec fn real_ports(ports: Seq<Seq<char>>, on: bool) -> Seq<Seq<char>>
    decreases ports.len(),
{
    if ports.len() == 0 {
        Seq::empty()
    } else {
        let before = real_ports(ports.drop_last(), on);
        if !contains(ports.last(), "%GameFilter"@) {
            before.push(ports.last())
        } else if on {
            before.push(GAME_PORTS@)
        } else {
            before
        }
    }
}

/// The ports of one protocol to capture: those that a strategy names, or the usual ones
/// where it names none; there the game filter adds the ports of games.
pub open spec fn ports_or(named: Seq<Seq<char>>, usual: Seq<Seq<char>>, on: bool) -> Seq<Seq<char>> {
    if named.len() > 0 {
        real_ports(named, on)
    } else if on {
        usual.push(GAME_PORTS@)
    } else {
        usual
    }
}

/// The TCP and the UDP ports to capture for a strategy. The usual ones are 80 and 443, and
/// 443.
pub open spec fn captured(s: StrategyView, on: bool) -> (Seq<Seq<char>>, Seq<Seq<char>>) {
    (ports_or(s.wf_tcp, seq!["80"@, "443"@], on), ports_or(s.wf_udp, seq!["443"@], on))
}

fn resolve_ports(ports: &[String], on: bool) -> (r: Vec<String>)
    ensures
        texts(r@) == real_ports(texts(ports@), on),
{
    let ghost ps = texts(ports@);
    let mut v: Vec<String> = Vec::new();
    let mut i: usize = 0;
    proof {
        assert(ps.take(0) =~= Seq::<Seq<char>>::empty());
    }
    while i < ports.len()
        invariant
            i <= ports@.len(),
            ps == texts(ports@),
            texts(v@) == real_ports(ps.take(i as int), on),
        decreases ports@.len() - i,
    {
        let ghost before = texts(v@);
        proof {
            assert(ps.take(i + 1).drop_last() =~= ps.take(i as int));
            assert(ps.take(i + 1).last() == ports@[i as int]@);
        }
        if !occurs(ports[i].as_str(), "%GameFilter") {
            v.push(ports[i].clone());
            assert(texts(v@) =~= before.push(ports@[i as int]@));
        } else if on {
            v.push(GAME_PORTS.to_owned());
            assert(texts(v@) =~= before.push(GAME_PORTS@));
        }
        i += 1;
    }
    assert(ps.take(ps.len() as int) =~= ps);
    v
}

/// The TCP and the UDP ports to capture for a strategy, as nftables writes them.
pub fn capture_ports(strat: &Strategy, game_filter: bool) -> (r: (Vec<String>, Vec<String>))
    ensures
        (texts(r.0@), texts(r.1@)) == captured(strat@, game_filter),
{
    let tcp = strings(&["80", "443"]);
    let udp = strings(&["443"]);
    assert(texts(tcp@) =~= seq!["80"@, "443"@]);
    assert(texts(udp@) =~= seq!["443"@]);
    (
        named_or(&strat.wf_tcp, tcp, game_filter),
        named_or(&strat.wf_udp, udp, game_filter),
    )
}

fn named_or(named: &[String], usual: Vec<String>, on: bool) -> (r: Vec<String>)
    ensures
        texts(r@) == ports_or(texts(named@), texts(usual@), on),
{
    assert(texts(named@).len() == named@.len());
    if named.len() > 0 {
        resolve_ports(named, on)
    } else {
        let mut r = usual;
        if on {
            r.push(GAME_PORTS.to_owned());
            assert(texts(r@) =~= texts(usual@).push(GAME_PORTS@));
        }
        r
    }
}

/// No token of the list holds a place for the game filter.
pub open spec fn settled(ports: Seq<Seq<char>>) -> bool {
    forall|i: int| 0 <= i < ports.len() ==> !contains(#[trigger] ports[i], "%GameFilter"@)
}

proof fn lemma_plain_ports()
    ensures
        !contains("80"@, "%GameFilter"@),
        !contains("443"@, "%GameFilter"@),
        !contains(GAME_PORTS@, "%GameFilter"@),
{
    reveal_strlit("80");
    reveal_strlit("443");
    reveal_strlit("1024-65535");
    reveal_strlit("%GameFilter");
    assert("80"@.len() == 2 && "443"@.len() == 3 && GAME_PORTS@.len() == 10);
    assert("%GameFilter"@.len() == 11);
}

proof fn lemma_real_ports(ports: Seq<Seq<char>>, on: bool)
    ensures
        settled(real_ports(ports, on)),
    decreases ports.len(),
{
    lemma_plain_ports();
    if ports.len() > 0 {
        lemma_real_ports(ports.drop_last(), on);
    }
}

/// The firewall never gets to see a place for the game filter: every token of the ports
/// to capture is a port or a range that the strategy names, or the ports of games.
pub proof fn captured_ports_are_settled(s: StrategyView, on: bool)
    ensures
        settled(captured(s, on).0),
        settled(captured(s, on).1),
{
    lemma_plain_ports();
    lemma_real_ports(s.wf_tcp, on);
    lemma_real_ports(s.wf_udp, on);
}

/// Whether `made` is what the game filter makes of the ports that a strategy names: with the
/// filter on, the ports of games stand in each place for it and every other token stays;
/// with the filter off, the places leave and the other tokens stay in their order.
pub open spec fn is_filter_of(made: Seq<Seq<char>>, named: Seq<Seq<char>>, on: bool) -> bool {
    &&& on ==> made.len() == named.len() && forall|i: int|
        0 <= i < named.len() ==> #[trigger] made[i] == (if contains(named[i], "%GameFilter"@) {
            "1024-65535"@
        } else {
            named[i]
        })
    &&& !on ==> made == named.filter(|t: Seq<char>| !contains(t, "%GameFilter"@))
}

proof fn lemma_is_filter_of(named: Seq<Seq<char>>, on: bool)
    ensures
        is_filter_of(real_ports(named, on), named, on),
    decreases named.len(),
{
    reveal(Seq::filter);
    let kept = |t: Seq<char>| !contains(t, "%GameFilter"@);
    let made = real_ports(named, on);
    if named.len() > 0 {
        let t = named.drop_last();
        let before = real_ports(t, on);
        lemma_is_filter_of(t, on);
        if on {
            assert forall|i: int| 0 <= i < named.len() implies #[trigger] made[i] == (if contains(
                named[i],
                "%GameFilter"@,
            ) {
                "1024-65535"@
            } else {
                named[i]
            }) by {
                if i < t.len() {
                    assert(before[i] == made[i]);
                    assert(t[i] == named[i]);
                }
            }
        } else {
            assert(kept(named.last()) == !contains(named.last(), "%GameFilter"@));
            assert(made =~= named.filter(kept));
        }
    } else if !on {
        assert(made =~= named.filter(kept));
    }
}

/// For each protocol the firewall captures the ports that the strategy names, with the game
/// filter put in or left out; only where the strategy names none are they 80 and 443 for
/// TCP and 443 for UDP, and the filter adds the ports of games behind them.
pub proof fn named_ports_are_captured(s: StrategyView, on: bool)
    ensures
        s.wf_tcp.len() > 0 ==> is_filter_of(captured(s, on).0, s.wf_tcp, on),
        s.wf_udp.len() > 0 ==> is_filter_of(captured(s, on).1, s.wf_udp, on),
        s.wf_tcp.len() == 0 ==> captured(s, on).0 == (if on {
            seq!["80"@, "443"@, "1024-65535"@]
        } else {
            seq!["80"@, "443"@]
        }),
        s.wf_udp.len() == 0 ==> captured(s, on).1 == (if on {
            seq!["443"@, "1024-65535"@]
        } else {
            seq!["443"@]
        }),
{
    lemma_is_filter_of(s.wf_tcp, on);
    lemma_is_filter_of(s.wf_udp, on);
    assert(seq!["80"@, "443"@].push("1024-65535"@) =~= seq!["80"@, "443"@, "1024-65535"@]);
    assert(seq!["443"@].push("1024-65535"@) =~= seq!["443"@, "1024-65535"@]);
}

/// With the game filter off nothing is captured that is not captured with it on, and tokens
/// without a place for it are captured either way.
pub proof fn the_game_filter_only_adds(s: StrategyView, port: Seq<char>)
    ensures
        captured(s, false).0.contains(port) ==> captured(s, true).0.contains(port),
        captured(s, false).1.contains(port) ==> captured(s, true).1.contains(port),
        s.wf_tcp.contains(port) && !contains(port, "%GameFilter"@) ==> captured(
            s,
            false,
        ).0.contains(port),
        s.wf_udp.contains(port) && !contains(port, "%GameFilter"@) ==> captured(
            s,
            false,
        ).1.contains(port),
{
    lemma_only_adds(s.wf_tcp, port);
    lemma_only_adds(s.wf_udp, port);
    let tcp = seq!["80"@, "443"@];
    let udp = seq!["443"@];
    if tcp.contains(port) {
        let i = choose|i: int| 0 <= i < tcp.len() && tcp[i] == port;
        assert(tcp.push(GAME_PORTS@)[i] == port);
    }
    if udp.contains(port) {
        let i = choose|i: int| 0 <= i < udp.len() && udp[i] == port;
        assert(udp.push(GAME_PORTS@)[i] == port);
    }
}

proof fn lemma_only_adds(named: Seq<Seq<char>>, port: Seq<char>)
    ensures
        real_ports(named, false).contains(port) ==> named.contains(port) && !contains(
            port,
            "%GameFilter"@,
        ),
        named.contains(port) && !contains(port, "%GameFilter"@) ==> real_ports(
            named,
            false,
        ).contains(port),
        real_ports(named, false).contains(port) ==> real_ports(named, true).contains(port),
{
    lemma_is_filter_of(named, false);
    lemma_is_filter_of(named, true);
    let kept = |t: Seq<char>| !contains(t, "%GameFilter"@);
    let off = real_ports(named, false);
    if off.contains(port) {
        let k = choose|k: int| 0 <= k < off.len() && off[k] == port;
        named.lemma_filter_contains_rev(kept, port);
        broadcast use vstd::seq_lib::group_filter_ensures;
        assert(kept(named.filter(kept)[k]));
        assert(named.filter(kept).contains(port));
        let i = choose|i: int| 0 <= i < named.len() && named[i] == port;
        assert(real_ports(named, true)[i] == port);
    }
    if named.contains(port) && !contains(port, "%GameFilter"@) {
        let i = choose|i: int| 0 <= i < named.len() && named[i] == port;
        broadcast use vstd::seq_lib::group_filter_ensures;
        assert(kept(named[i]));
    }
}

proof fn lemma_no_percent(s: Seq<char>, pat: Seq<char>)
    requires
        !s.contains('%'),
        pat.len() > 0,
        pat[0] == '%',
    ensures
        !contains(s, pat),
{
    if contains(s, pat) {
        let i = choose|i: int| crate::text::at(s, i, pat);
        assert(s.subrange(i, i + pat.len())[0] == s[i]);
        assert(s.contains(s[i]));
    }
}

/// The game filter puts its ports exactly where its place stands: what precedes and what
/// follows the place is not changed. It puts the ports of games while it is on, and the
/// port 12 while it is off.
pub proof fn the_game_filter_fills_its_place(p: Seq<char>, q: Seq<char>, on: bool)
    requires
        !p.contains('%'),
        !q.contains('%'),
    ensures
        ({
            let put = p + (if on {
                "1024-65535"@
            } else {
                "12"@
            }) + q;
            &&& all_filtered(seq![p + "%GameFilterTCP%"@ + q], on) == seq![put]
            &&& all_filtered(seq![p + "%GameFilterUDP%"@ + q], on) == seq![put]
            &&& all_filtered(seq![p + "%GameFilter%"@ + q], on) == seq![put]
        }),
{
    let v = filter_value(on);
    lemma_one_place(p, "%GameFilterTCP%"@, q, on);
    lemma_one_place(p, "%GameFilterUDP%"@, q, on);
    lemma_one_place(p, "%GameFilter%"@, q, on);
    let put = p + v + q;
    assert(all_filtered(seq![p + "%GameFilterTCP%"@ + q], on) =~= seq![put]);
    assert(all_filtered(seq![p + "%GameFilterUDP%"@ + q], on) =~= seq![put]);
    assert(all_filtered(seq![p + "%GameFilter%"@ + q], on) =~= seq![put]);
}

proof fn lemma_one_place(p: Seq<char>, place: Seq<char>, q: Seq<char>, on: bool)
    requires
        !p.contains('%'),
        !q.contains('%'),
        place == "%GameFilterTCP%"@ || place == "%GameFilterUDP%"@ || place == "%GameFilter%"@,
    ensures
        filtered(p + place + q, filter_value(on)) == p + filter_value(on) + q,
{
    lemma_placeholders();
    reveal_strlit("%GameFilterTCP%");
    reveal_strlit("%GameFilterUDP%");
    reveal_strlit("%GameFilter%");
    let v = filter_value(on);
    let s = p + place + q;
    let put = p + v + q;
    let t = "%GameFilterTCP%"@;
    let u = "%GameFilterUDP%"@;
    let g = "%GameFilter%"@;
    assert(!put.contains('%')) by {
        if put.contains('%') {
            let i = choose|i: int| 0 <= i < put.len() && put[i] == '%';
            if p.len() <= i < p.len() + v.len() {
                assert(v[i - p.len()] == '%');
                assert(g[0] == '%');
            } else if i >= p.len() + v.len() {
                assert(q[i - p.len() - v.len()] == '%');
            } else {
                assert(p[i] == '%');
            }
        }
    }
    lemma_no_percent(put, t);
    lemma_no_percent(put, u);
    lemma_no_percent(put, g);
    replacing_what_is_absent(put, t, v);
    replacing_what_is_absent(put, u, v);
    replacing_what_is_absent(put, g, v);
    lemma_no_percent(q, place);
    replacing_what_is_absent(q, place, v);
    assert forall|j: int| 0 <= j < p.len() implies !crate::text::at(s, j, place) by {
        if crate::text::at(s, j, place) {
            assert(s.subrange(j, j + place.len())[0] == p[j]);
        }
    }
    crate::text::replacing_takes_the_first(p, place, v, q);
    if place != t {
        lemma_other_place(p, place, q, t);
        replacing_what_is_absent(s, t, v);
        if place != u {
            lemma_other_place(p, place, q, u);
            replacing_what_is_absent(s, u, v);
        }
    }
}

proof fn lemma_other_place(p: Seq<char>, place: Seq<char>, q: Seq<char>, pat: Seq<char>)
    requires
        !p.contains('%'),
        !q.contains('%'),
        place == "%GameFilterUDP%"@ || place == "%GameFilter%"@,
        pat == "%GameFilterTCP%"@ || pat == "%GameFilterUDP%"@,
        place != pat,
    ensures
        !contains(p + place + q, pat),
{
    reveal_strlit("%GameFilterTCP%");
    reveal_strlit("%GameFilterUDP%");
    reveal_strlit("%GameFilter%");
    let s = p + place + q;
    if contains(s, pat) {
        let i = choose|i: int| crate::text::at(s, i, pat);
        let t = s.subrange(i, i + pat.len());
        assert(t[0] == s[i] && t[11] == s[i + 11] && t[14] == s[i + 14]);
        let k = i - p.len();
        if k < 0 {
            assert(p[i] == '%');
        } else if k >= place.len() {
            assert(q[k - place.len()] == '%');
        } else {
            assert(s[i] == place[k]);
            assert(k == 0 || k == place.len() - 1);
            if k == 0 {
                assert(s[i + 11] == place[11]);
            } else {
                assert(s[i + 14] == q[14 - 1]);
            }
        }
    }
}

// ── Scanning ────────────────────────────────────────────────────────────────

/// A file of the core directory: its path, its name, and what it holds or why it could
/// not be read.
#[derive(Debug)]
pub struct BatFile {
    pub path: String,
    pub file_name: String,
    pub content: Result<Vec<u8>, String>,
}

/// A file of the core directory as a mathematical value.
pub struct BatFileView {
    pub path: Seq<char>,
    pub file_name: Seq<char>,
    pub content: Result<Seq<u8>, Seq<char>>,
}

impl View for BatFile {
    type V = BatFileView;

    open spec fn view(&self) -> BatFileView {
        BatFileView {
            path: self.path@,
            file_name: self.file_name@,
            content: match self.content {
                Ok(b) => Ok(b@),
                Err(e) => Err(e@),
            },
        }
    }
}

/// The files of a list as mathematical values.
pub open spec fn files_view(files: Seq<BatFile>) -> Seq<BatFileView> {
    Seq::new(files.len(), |i: int| files[i]@)
}

/// The sort keys of files: their paths.
pub open spec fn path_keys(files: Seq<BatFileView>) -> Seq<KeyView> {
    Seq::new(files.len(), |i: int| (0nat, seq![(0nat, files[i].path)]))
}

/// `sorted` holds the files in the order of their paths.
pub open spec fn in_path_order(files: Seq<BatFileView>, sorted: Seq<BatFileView>) -> bool {
    exists|p: Seq<int>| sorted_stably(files, path_keys(files), sorted, p)
}

/// Sorts files by their paths.
pub fn sort_files(files: &mut Vec<BatFile>)
    ensures
        in_path_order(files_view(old(files)@), files_view(final(files)@)),
{
    let ghost before = files@;
    let mut keys: Vec<SortKey> = Vec::new();
    let mut i: usize = 0;
    while i < files.len()
        invariant
            i <= files@.len(),
            files@ == before,
            keys@.len() == i,
            forall|k: int|
                0 <= k < i ==> (#[trigger] keys@[k])@ == (0nat, seq![(0nat, before[k]@.path)]),
        decreases files@.len() - i,
    {
        let mut parts: Vec<(u64, String)> = Vec::new();
        parts.push((0, files[i].path.clone()));
        assert(parts_view(parts@) =~= seq![(0nat, before[i as int]@.path)]);
        keys.push(SortKey { rank: 0, parts });
        i += 1;
    }
    assert(keys_view(keys@) =~= path_keys(files_view(before)));
    sort_by_keys(files, keys);
    proof {
        let ks = path_keys(files_view(before));
        let p = choose|p: Seq<int>| sorted_stably(before, ks, files@, p);
        assert forall|i: int| 0 <= i < p.len() implies #[trigger] files_view(files@)[i]
            == files_view(before)[p[i]] by {
            assert(files@[i] == before[p[i]]);
        }
        assert(sorted_stably(files_view(before), ks, files_view(files@), p));
    }
}

/// What a file gives: the strategy that it holds, or why it holds none.
pub open spec fn file_outcome(f: BatFileView, dir: Seq<char>) -> Result<StrategyView, Seq<char>> {
    match f.content {
        Err(e) => Err("чтение: "@ + e),
        Ok(bytes) => flowseal(f.path, strategy_name(Some(f.file_name)), text_of(bytes), dir),
    }
}

/// The strategies of the batch files, in the order of the files.
pub open spec fn file_strategies(files: Seq<BatFileView>, dir: Seq<char>) -> Seq<StrategyView>
    decreases files.len(),
{
    if files.len() == 0 {
        Seq::empty()
    } else {
        let before = file_strategies(files.drop_last(), dir);
        match file_outcome(files.last(), dir) {
            Ok(s) => if general_bat(files.last().file_name) {
                before.push(s)
            } else {
                before
            },
            Err(_) => before,
        }
    }
}

/// The remarks on the batch files that hold no strategy.
pub open spec fn file_remarks(files: Seq<BatFileView>, dir: Seq<char>) -> Seq<Seq<char>>
    decreases files.len(),
{
    if files.len() == 0 {
        Seq::empty()
    } else {
        let before = file_remarks(files.drop_last(), dir);
        match file_outcome(files.last(), dir) {
            Ok(_) => before,
            Err(why) => if general_bat(files.last().file_name) {
                before.push("пропущен "@ + files.last().file_name + ": "@ + why)
            } else {
                before
            },
        }
    }
}

/// The remark on the engine.
pub open spec fn engine_remark(nfqws: Option<Seq<char>>) -> Seq<char> {
    match nfqws {
        Some(p) => "движок: nfqws "@ + p,
        None => "nfqws не найден — установите bol-van/zapret (автоустановка в L8)"@,
    }
}

/// The files of the core directory; none without one.
pub open spec fn core_files(core: Option<Seq<char>>, files: Seq<BatFileView>) -> Seq<BatFileView> {
    match core {
        Some(_) => files,
        None => Seq::empty(),
    }
}

/// The directory of the core, empty without one.
pub open spec fn dir_of(core: Option<Seq<char>>) -> Seq<char> {
    match core {
        Some(d) => d,
        None => Seq::empty(),
    }
}

/// Reads the strategies of the batch files, and the remarks on those that hold none.
pub fn read_files(files: &[BatFile], dir: &str) -> (r: (Vec<Strategy>, Vec<String>))
    ensures
        views(r.0@) == file_strategies(files_view(files@), dir@),
        texts(r.1@) == file_remarks(files_view(files@), dir@),
{
    let ghost fs = files_view(files@);
    let mut found: Vec<Strategy> = Vec::new();
    let mut remarks: Vec<String> = Vec::new();
    let mut i: usize = 0;
    proof {
        assert(fs.take(0) =~= Seq::<BatFileView>::empty());
        assert(views(found@) =~= Seq::<StrategyView>::empty());
        assert(texts(remarks@) =~= Seq::<Seq<char>>::empty());
    }
    while i < files.len()
        invariant
            i <= files@.len(),
            fs == files_view(files@),
            views(found@) == file_strategies(fs.take(i as int), dir@),
            texts(remarks@) == file_remarks(fs.take(i as int), dir@),
        decreases files@.len() - i,
    {
        let f = &files[i];
        let ghost before = views(found@);
        let ghost said = texts(remarks@);
        proof {
            assert(fs.take(i + 1).drop_last() =~= fs.take(i as int));
            assert(fs.take(i + 1).last() == f@);
        }
        if is_general_bat(f.file_name.as_str()) {
            let got = match &f.content {
                Err(e) => Err(cat("чтение: ", e.as_str())),
                Ok(bytes) => parse_flowseal(
                    f.path.as_str(),
                    Some(f.file_name.as_str()),
                    bytes,
                    dir,
                ),
            };
            match got {
                Ok(s) => {
                    found.push(s);
                    assert(views(found@) =~= before.push(s@));
                },
                Err(why) => {
                    let mut m = cat3("пропущен ", f.file_name.as_str(), ": ");
                    m.append(why.as_str());
                    remarks.push(m);
                    assert(texts(remarks@) =~= said.push(m@));
                },
            }
        }
        i += 1;
    }
    assert(fs.take(fs.len() as int) =~= fs);
    (found, remarks)
}

/// What a scan gives that has read the files `fs` in this order: the strategies of the batch
/// files, sorted, or the built-in set where there are none; and the remarks.
pub open spec fn scanned(
    r: CoreScanView,
    nfqws: Option<Seq<char>>,
    dir: Seq<char>,
    fs: Seq<BatFileView>,
) -> bool {
    let found = file_strategies(fs, dir);
    let remarks = seq![engine_remark(nfqws)] + file_remarks(fs, dir);
    if found.len() == 0 {
        &&& r.strategies == curated_set()
        &&& r.messages == remarks.push(
            "ядро Flowseal не найдено — встроенные стратегии: "@ + decimal(11),
        )
    } else {
        &&& exists|p: Seq<int>| sorted_stably(found, strategy_keys(found), r.strategies, p)
        &&& r.messages == remarks.push("стратегии Flowseal: "@ + decimal(found.len()))
    }
}

/// Scans for strategies: those of the core's batch files, sorted; the built-in set where
/// there are none. Neither a missing engine nor a missing core hides the list, which is
/// never empty. `files` are the files of the core directory, in any order: they are read
/// in the order of their paths.
pub fn scan(nfqws: Option<&str>, core: Option<&str>, files: Vec<BatFile>) -> (r: CoreScan)
    ensures
        r@.core_dir == opt_str(core),
        r@.strategies.len() > 0,
        exists|fs: Seq<BatFileView>| #[trigger]
            in_path_order(core_files(opt_str(core), files_view(files@)), fs) && scanned(
                r@,
                opt_str(nfqws),
                dir_of(opt_str(core)),
                fs,
            ),
{
    let ghost given = core_files(opt_str(core), files_view(files@));
    let mut list: Vec<BatFile> = match core {
        Some(_) => files,
        None => Vec::new(),
    };
    assert(files_view(list@) =~= given);
    sort_files(&mut list);
    let mut messages: Vec<String> = Vec::new();
    match nfqws {
        Some(p) => {
            messages.push(cat("движок: nfqws ", p));
        },
        None => {
            messages.push(
                "nfqws не найден — установите bol-van/zapret (автоустановка в L8)".to_owned(),
            );
        },
    }
    assert(texts(messages@) =~= seq![engine_remark(opt_str(nfqws))]);
    let ghost first = texts(messages@);
    let mut strategies: Vec<Strategy> = Vec::new();
    let mut core_dir: Option<String> = None;
    let ghost fs = files_view(list@);
    let ghost dir_text = dir_of(opt_str(core));
    let ghost found = file_strategies(fs, dir_text);
    let ghost mut order: Seq<int> = Seq::empty();
    match core {
        Some(dir) => {
            core_dir = Some(dir.to_owned());
            let (mut read, mut remarks) = read_files(&list, dir);
            let ghost said = texts(remarks@);
            messages.append(&mut remarks);
            assert(texts(messages@) =~= first + said);
            let ghost unsorted = read@;
            sort_strategies(&mut read);
            proof {
                let p = choose|p: Seq<int>|
                    sorted_stably(unsorted, strategy_keys(views(unsorted)), read@, p);
                order = p;
                assert(sorted_stably(found, strategy_keys(found), views(read@), p)) by {
                    assert forall|i: int| 0 <= i < p.len() implies #[trigger] views(read@)[i]
                        == found[p[i]] by {
                        assert(read@[i] == unsorted[p[i]]);
                    }
                }
            }
            strategies = read;
        },
        None => {
            assert(fs.len() == 0);
            assert(file_strategies(fs, dir_text) =~= Seq::<StrategyView>::empty());
            assert(texts(messages@) =~= first + file_remarks(fs, dir_text));
            assert(views(strategies@) =~= Seq::<StrategyView>::empty());
        },
    }
    let ghost said = texts(messages@);
    assert(views(strategies@).len() == found.len());
    if strategies.len() == 0 {
        strategies = curated();
        assert(views(strategies@).len() == 11);
        messages.push(
            cat(
                "ядро Flowseal не найдено — встроенные стратегии: ",
                decimal_text(strategies.len() as u64).as_str(),
            ),
        );
    } else {
        messages.push(
            cat("стратегии Flowseal: ", decimal_text(strategies.len() as u64).as_str()),
        );
    }
    assert(texts(messages@) =~= said.push(messages@.last()@));
    let r = CoreScan { core_dir, strategies, messages };
    assert(found.len() > 0 ==> sorted_stably(found, strategy_keys(found), r@.strategies, order));
    assert(r@.strategies.len() == r.strategies@.len());
    assert(in_path_order(given, fs) && scanned(r@, opt_str(nfqws), dir_text, fs));
    r
}

/// Every batch file is accounted for, once and in its order: one that holds a strategy
/// gives that strategy, any other one gives a remark with its name and the reason, and a
/// file of another name gives neither. The files of two parts of a list follow each other.
pub proof fn every_batch_file_is_accounted_for(
    a: Seq<BatFileView>,
    b: Seq<BatFileView>,
    dir: Seq<char>,
)
    ensures
        file_strategies(a + b, dir) == file_strategies(a, dir) + file_strategies(b, dir),
        file_remarks(a + b, dir) == file_remarks(a, dir) + file_remarks(b, dir),
        file_strategies(a, dir).len() + file_remarks(a, dir).len() == a.filter(
            |f: BatFileView| general_bat(f.file_name),
        ).len(),
        a.len() == 1 && general_bat(a[0].file_name) ==> match a[0].content {
            Ok(bytes) => match flowseal(
                a[0].path,
                strategy_name(Some(a[0].file_name)),
                text_of(bytes),
                dir,
            ) {
                Ok(s) => file_strategies(a, dir) == seq![s],
                Err(why) => file_remarks(a, dir) == seq![
                    "пропущен "@ + a[0].file_name + ": "@ + why,
                ],
            },
            Err(e) => file_remarks(a, dir) == seq![
                "пропущен "@ + a[0].file_name + ": "@ + ("чтение: "@ + e),
            ],
        },
    decreases a.len() + b.len(),
{
    reveal_with_fuel(file_strategies, 2);
    reveal_with_fuel(file_remarks, 2);
    if b.len() > 0 {
        every_batch_file_is_accounted_for(a, b.drop_last(), dir);
        assert((a + b).drop_last() =~= a + b.drop_last());
        assert((a + b).last() == b.last());
        assert(file_strategies(a + b, dir) =~= file_strategies(a, dir) + file_strategies(b, dir));
        assert(file_remarks(a + b, dir) =~= file_remarks(a, dir) + file_remarks(b, dir));
    } else {
        assert(a + b =~= a);
        assert(file_strategies(a, dir) + file_strategies(b, dir) =~= file_strategies(a, dir));
        assert(file_remarks(a, dir) + file_remarks(b, dir) =~= file_remarks(a, dir));
        reveal(Seq::filter);
        let batch = |f: BatFileView| general_bat(f.file_name);
        if a.len() > 0 {
            every_batch_file_is_accounted_for(a.drop_last(), b, dir);
            assert(batch(a.last()) == general_bat(a.last().file_name));
        }
    }
    if a.len() == 1 {
        assert(a.drop_last() =~= Seq::empty());
        match file_outcome(a[0], dir) {
            Ok(s) => {
                assert(Seq::<StrategyView>::empty().push(s) =~= seq![s]);
            },
            Err(why) => {
                let said = "пропущен "@ + a[0].file_name + ": "@ + why;
                assert(Seq::<Seq<char>>::empty().push(said) =~= seq![said]);
            },
        }
    }
}

/// The files are read in the order of their paths.
pub proof fn files_are_read_by_path(files: Seq<BatFileView>, sorted: Seq<BatFileView>, i: int, j: int)
    requires
        in_path_order(files, sorted),
        0 <= i < j < sorted.len(),
    ensures
        sorted.len() == files.len(),
        files.contains(sorted[i]),
        !crate::order::text_lt(sorted[j].path, sorted[i].path),
{
    let keys = path_keys(files);
    let p = choose|p: Seq<int>| sorted_stably(files, keys, sorted, p);
    crate::order::sorting_orders_and_keeps(files, keys, sorted, p);
    assert(sorted[i] == files[p[i]] && sorted[j] == files[p[j]]);
    if crate::order::text_lt(sorted[j].path, sorted[i].path) {
        let none = Seq::<(nat, Seq<char>)>::empty();
        crate::order::ranks_and_numbers_decide(
            (0nat, none),
            (0nat, none),
            none,
            (0nat, sorted[j].path),
            (0nat, sorted[i].path),
        );
        assert(none.push((0nat, sorted[j].path)) + none =~= seq![(0nat, sorted[j].path)]);
        assert(none.push((0nat, sorted[i].path)) + none =~= seq![(0nat, sorted[i].path)]);
        assert(crate::order::key_lt(keys[p[j]], keys[p[i]]));
    }
}

/// A scan shows the strategies of the batch files and nothing else, in the order of their
/// groups; only where there are none does it show the built-in ones. The list is never
/// empty, and the first message tells of the engine.
pub proof fn a_scan_shows_what_is_there(
    r: CoreScanView,
    nfqws: Option<Seq<char>>,
    dir: Seq<char>,
    fs: Seq<BatFileView>,
    i: int,
    j: int,
)
    requires
        scanned(r, nfqws, dir, fs),
    ensures
        file_strategies(fs, dir).len() == 0 ==> r.strategies == curated_set(),
        file_strategies(fs, dir).len() > 0 ==> r.strategies.len() == file_strategies(fs, dir).len(),
        file_strategies(fs, dir).len() > 0 && 0 <= i < r.strategies.len() ==> file_strategies(
            fs,
            dir,
        ).contains(r.strategies[i]) && r.strategies.contains(file_strategies(fs, dir)[i]),
        file_strategies(fs, dir).len() > 0 && 0 <= i < j < r.strategies.len() ==> rank_of(
            r.strategies[i].group,
        ) <= rank_of(r.strategies[j].group) && (r.strategies[i].group == r.strategies[j].group
            ==> !crate::order::parts_lt(
            natural(r.strategies[j].name),
            natural(r.strategies[i].name),
        )),
        r.messages.len() == file_remarks(fs, dir).len() + 2,
        r.messages.len() > 0 && r.messages[0] == engine_remark(nfqws),
        forall|k: int|
            0 <= k < file_remarks(fs, dir).len() ==> r.messages[k + 1] == #[trigger] file_remarks(
                fs,
                dir,
            )[k],
{
    let found = file_strategies(fs, dir);
    if found.len() > 0 {
        let keys = strategy_keys(found);
        let p = choose|p: Seq<int>| sorted_stably(found, keys, r.strategies, p);
        crate::order::sorting_orders_and_keeps(found, keys, r.strategies, p);
        if 0 <= i < r.strategies.len() {
            assert(r.strategies[i] == found[p[i]]);
            assert(r.strategies.contains(found[i]));
        }
        if 0 <= i < j < r.strategies.len() {
            assert(r.strategies[i] == found[p[i]] && r.strategies[j] == found[p[j]]);
            assert(keys[p[i]] == strategy_key(r.strategies[i]));
            assert(keys[p[j]] == strategy_key(r.strategies[j]));
        }
    }
}

} // verus!
