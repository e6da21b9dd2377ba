//! Elevation on Windows: this program runs itself again through the UAC dialog.
use vstd::prelude::*;

use crate::text::{cat3, decimal_text, join, occurs};

verus! {

use crate::bat::{arguments, in_quotes};
use crate::text::{contains, decimal, is_white, joined, texts};

/// A parameter: in quotation marks where it holds a space.
pub open spec fn param(a: Seq<char>) -> Seq<char> {
    if contains(a, " "@) {
        "\""@ + a + "\""@
    } else {
        a
    }
}

/// The parameters of an elevated run, as one text.
pub open spec fn params(args: Seq<Seq<char>>) -> Seq<char> {
    joined(Seq::new(args.len(), |i: int| param(args[i])), " "@)
}

/// The parameters of an elevated run, as one text.
pub fn join_params(args: &[String]) -> (r: String)
    ensures
        r@ == params(texts(args@)),
{
    let ghost want = Seq::new(texts(args@).len(), |i: int| param(texts(args@)[i]));
    let mut v: Vec<String> = Vec::new();
    let mut i: usize = 0;
    while i < args.len()
        invariant
            i <= args@.len(),
            v@.len() == i,
            forall|k: int| 0 <= k < i ==> (#[trigger] v@[k])@ == param(args@[k]@),
        decreases args@.len() - i,
    {
        if occurs(args[i].as_str(), " ") {
            v.push(cat3("\"", args[i].as_str(), "\""));
        } else {
            v.push(args[i].clone());
        }
        i += 1;
    }
    assert(texts(v@) =~= want);
    join(&v, " ")
}

/// Why an elevated run did not start, by the error number of the system. One number says
/// that the user answered the dialog with no.
pub fn refusal_text(err: u32) -> (r: String)
    ensures
        r@ == (if err == 1223 {
            "элевация отклонена пользователем (UAC: Нет)"@
        } else {
            "элевация не удалась (GetLastError="@ + decimal(err as nat) + ")"@
        }),
{
    if err == 1223 {
        "элевация отклонена пользователем (UAC: Нет)".to_owned()
    } else {
        cat3("элевация не удалась (GetLastError=", decimal_text(err as u64).as_str(), ")")
    }
}

/// A text as a piece of a command line: between quotation marks, or as it is where it is one
/// word.
pub open spec fn is_piece(piece: Seq<char>, a: Seq<char>) -> bool {
    &&& !a.contains('"')
    &&& piece == in_quotes(a) || (piece == a && a.len() > 0 && forall|j: int|
        0 <= j < a.len() ==> !is_white(#[trigger] a[j]))
}

/// A command line is read as it was made: pieces with single spaces between them give the
/// texts again that they stand for.
pub proof fn pieces_come_back(pieces: Seq<Seq<char>>, args: Seq<Seq<char>>)
    requires
        pieces.len() == args.len(),
        forall|i: int| 0 <= i < args.len() ==> is_piece(#[trigger] pieces[i], args[i]),
    ensures
        arguments(joined(pieces, " "@), Seq::empty(), false, false) == args,
    decreases args.len(),
{
    reveal_strlit(" ");
    assert(" "@ =~= seq![' ']);
    let none = Seq::<char>::empty();
    if args.len() == 0 {
        assert(arguments(none, none, false, false) =~= args);
    } else {
        let a = args[0];
        assert(is_piece(pieces[0], args[0]));
        if args.len() == 1 {
            assert(joined(pieces, " "@) =~= pieces[0] + none);
            lemma_piece(pieces[0], a, none);
            assert(seq![a] =~= args);
        } else {
            let rest = args.skip(1);
            let more = pieces.skip(1);
            assert forall|i: int| 0 <= i < rest.len() implies is_piece(
                #[trigger] more[i],
                rest[i],
            ) by {
                assert(more[i] == pieces[i + 1] && rest[i] == args[i + 1]);
            }
            pieces_come_back(more, rest);
            crate::text::lemma_joined_first(pieces, " "@);
            let tail = seq![' '] + joined(more, " "@);
            assert(joined(pieces, " "@) =~= pieces[0] + tail);
            lemma_piece(pieces[0], a, tail);
            assert(tail[0] == ' ');
            assert(tail.skip(1) =~= joined(more, " "@));
            assert(seq![a] + rest =~= args);
        }
    }
}

proof fn lemma_piece(piece: Seq<char>, a: Seq<char>, more: Seq<char>)
    requires
        is_piece(piece, a),
    ensures
        arguments(piece + more, Seq::empty(), false, false) == arguments(more, a, false, true),
{
    let none = Seq::<char>::empty();
    if piece == in_quotes(a) {
        crate::bat::lemma_argument_quoted(a, more);
    } else {
        lemma_bare_read(a, more, none, false);
        assert(none + a =~= a);
    }
}

/// The parameters reach the elevated run as they were given: split at white space, with
/// regard to quotation marks, the text gives the same arguments again, spaces in them
/// included.
pub proof fn parameters_come_back(args: Seq<Seq<char>>)
    requires
        forall|i: int| 0 <= i < args.len() ==> (#[trigger] args[i]).len() > 0,
        forall|i: int| 0 <= i < args.len() ==> !(#[trigger] args[i]).contains('"'),
        forall|i: int, j: int|
            0 <= i < args.len() && 0 <= j < args[i].len() ==> !is_white(#[trigger] args[i][j])
                || args[i][j] == ' ',
    ensures
        arguments(params(args), Seq::empty(), false, false) == args,
{
    let made = Seq::new(args.len(), |i: int| param(args[i]));
    assert forall|i: int| 0 <= i < args.len() implies is_piece(#[trigger] made[i], args[i]) by {
        let a = args[i];
        reveal_strlit(" ");
        reveal_strlit("\"");
        assert(" "@ =~= seq![' ']);
        assert("\""@ =~= seq!['"']);
        assert(a.len() > 0 && !a.contains('"'));
        if contains(a, " "@) {
            assert(param(a) =~= in_quotes(a));
        } else {
            assert forall|j: int| 0 <= j < a.len() implies !is_white(#[trigger] a[j]) by {
                assert(args[i][j] == a[j]);
                if a[j] == ' ' {
                    assert(a.subrange(j, j + 1) =~= " "@);
                    assert(crate::text::at(a, j, " "@));
                }
            }
        }
    }
    pieces_come_back(made, args);
}

proof fn lemma_bare_read(a: Seq<char>, more: Seq<char>, cur: Seq<char>, started: bool)
    requires
        !a.contains('"'),
        forall|j: int| 0 <= j < a.len() ==> !is_white(#[trigger] a[j]),
    ensures
        a.len() > 0 ==> arguments(a + more, cur, false, started) == arguments(
            more,
            cur + a,
            false,
            true,
        ),
        a.len() == 0 ==> arguments(a + more, cur, false, started) == arguments(
            more,
            cur,
            false,
            started,
        ),
    decreases a.len(),
{
    let s = a + more;
    if a.len() == 0 {
        assert(s =~= more);
    } else {
        let t = a.skip(1);
        assert(a.contains(a[0]));
        assert(s[0] == a[0]);
        assert(s.skip(1) =~= t + more);
        assert(!t.contains('"')) by {
            if t.contains('"') {
                let i = choose|i: int| 0 <= i < t.len() && t[i] == '"';
                assert(a[i + 1] == '"');
            }
        }
        assert forall|j: int| 0 <= j < t.len() implies !is_white(#[trigger] t[j]) by {
            assert(t[j] == a[j + 1]);
        }
        lemma_bare_read(t, more, cur.push(a[0]), true);
        if t.len() > 0 {
            assert(cur.push(a[0]) + t =~= cur + a);
        } else {
            assert(cur.push(a[0]) =~= cur + a);
        }
    }
}

} // verus!
