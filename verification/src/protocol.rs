//! The transfer protocols and directions, and their names.

use vstd::prelude::*;

use crate::text::{concat, same, to_lower};

verus! {

/// A file transfer protocol.
#[derive(Clone, Copy, PartialEq, Eq, Debug, Structural)]
pub enum Protocol {
    Xmodem,
    Xmodem1k,
    Ymodem,
}

/// The characters of `s` other than `-` and `_`, ASCII letters in lower case.
pub open spec fn normalized(s: Seq<char>) -> Seq<char> {
    crate::text::lowered(s).filter(|c: char| c != '-' && c != '_')
}

/// The protocol that `s` names, whatever its case and its hyphens.
pub open spec fn protocol_named(s: Seq<char>) -> Option<Protocol> {
    let n = normalized(s);
    if n == "x"@ || n == "xmodem"@ {
        Some(Protocol::Xmodem)
    } else if n == "x1k"@ || n == "xmodem1k"@ || n == "1k"@ {
        Some(Protocol::Xmodem1k)
    } else if n == "y"@ || n == "ymodem"@ {
        Some(Protocol::Ymodem)
    } else {
        None
    }
}

/// `s` without its hyphens and underscores.
fn without_marks(s: &str) -> (r: String)
    ensures
        r@ == s@.filter(|c: char| c != '-' && c != '_'),
{
    let ghost keep = |c: char| c != '-' && c != '_';
    let mut r = String::new();
    let n = s.unicode_len();
    let mut i: usize = 0;
    assert(s@.take(0).filter(keep) =~= Seq::empty()) by {
        reveal(Seq::filter);
    }
    while i < n
        invariant
            i <= n == s@.len(),
            keep == (|c: char| c != '-' && c != '_'),
            r@ == s@.take(i as int).filter(keep),
        decreases n - i,
    {
        let c = s.get_char(i);
        proof {
            reveal(Seq::filter);
            assert(s@.take(i + 1).drop_last() =~= s@.take(i as int));
        }
        if c != '-' && c != '_' {
            r.push(c);
        }
        i = i + 1;
    }
    assert(s@.take(i as int) =~= s@);
    r
}

impl Protocol {
    pub const ALL: [Protocol; 3] = [Protocol::Xmodem, Protocol::Xmodem1k, Protocol::Ymodem];

    /// The name shown for the protocol.
    pub open spec fn name(self) -> Seq<char> {
        match self {
            Protocol::Xmodem => "XMODEM"@,
            Protocol::Xmodem1k => "XMODEM-1K"@,
            Protocol::Ymodem => "YMODEM"@,
        }
    }

    /// The name shown for the protocol.
    pub fn label(self) -> (r: &'static str)
        ensures
            r@ == self.name(),
    {
        match self {
            Protocol::Xmodem => "XMODEM",
            Protocol::Xmodem1k => "XMODEM-1K",
            Protocol::Ymodem => "YMODEM",
        }
    }

    /// The protocol that `s` names, or a message that says which names there are.
    pub fn parse(s: &str) -> (r: Result<Self, String>)
        ensures
            match r {
                Ok(p) => protocol_named(s@) == Some(p),
                Err(e) => protocol_named(s@) is None && e@
                    == "プロトコルは xmodem / xmodem-1k / ymodem のいずれか: "@ + s@,
            },
    {
        let lowered = to_lower(s);
        let n = without_marks(lowered.as_str());
        let n = n.as_str();
        if same(n, "x") || same(n, "xmodem") {
            Ok(Protocol::Xmodem)
        } else if same(n, "x1k") || same(n, "xmodem1k") || same(n, "1k") {
            Ok(Protocol::Xmodem1k)
        } else if same(n, "y") || same(n, "ymodem") {
            Ok(Protocol::Ymodem)
        } else {
            Err(concat("プロトコルは xmodem / xmodem-1k / ymodem のいずれか: ", s))
        }
    }
}

/// Which way the files go.
#[derive(Clone, Copy, PartialEq, Eq, Debug, Structural)]
pub enum Direction {
    Send,
    Recv,
}

impl Direction {
    /// The word shown for the direction.
    pub open spec fn name(self) -> Seq<char> {
        match self {
            Direction::Send => "送信"@,
            Direction::Recv => "受信"@,
        }
    }

    /// The word shown for the direction.
    pub fn label(self) -> (r: &'static str)
        ensures
            r@ == self.name(),
    {
        match self {
            Direction::Send => "送信",
            Direction::Recv => "受信",
        }
    }
}

/// A text without marks is its own normal form, once in lower case.
proof fn lemma_filter_keeps_all(s: Seq<char>, keep: spec_fn(char) -> bool)
    requires
        forall|i: int| 0 <= i < s.len() ==> keep(s[i]),
    ensures
        s.filter(keep) == s,
    decreases s.len(),
{
    reveal(Seq::filter);
    if s.len() > 0 {
        lemma_filter_keeps_all(s.drop_last(), keep);
        assert(s.drop_last().push(s.last()) =~= s);
    }
}

/// Every protocol is found again under the name that is shown for it.
pub proof fn label_names_protocol(p: Protocol)
    ensures
        protocol_named(p.name()) == Some(p),
{
    let keep = |c: char| c != '-' && c != '_';
    reveal_strlit("XMODEM");
    reveal_strlit("XMODEM-1K");
    reveal_strlit("YMODEM");
    reveal_strlit("x");
    reveal_strlit("xmodem");
    reveal_strlit("x1k");
    reveal_strlit("xmodem1k");
    reveal_strlit("1k");
    reveal_strlit("y");
    reveal_strlit("ymodem");
    let low = crate::text::lowered(p.name());
    match p {
        Protocol::Xmodem => {
            lemma_filter_keeps_all(low, keep);
            assert(low =~= "xmodem"@);
        },
        Protocol::Ymodem => {
            lemma_filter_keeps_all(low, keep);
            assert(low =~= "ymodem"@);
            assert("ymodem"@ != "x"@ && "ymodem"@ != "x1k"@ && "ymodem"@ != "1k"@);
            assert("ymodem"@[0] != "xmodem"@[0]);
            assert("ymodem"@.len() != "xmodem1k"@.len());
        },
        Protocol::Xmodem1k => {
            let a = "xmodem"@;
            let b = "1k"@;
            assert(low =~= a.push('-') + b);
            Seq::filter_distributes_over_add(a.push('-'), b, keep);
            lemma_filter_keeps_all(a, keep);
            lemma_filter_keeps_all(b, keep);
            assert(a.push('-').filter(keep) == a) by {
                reveal(Seq::filter);
                assert(a.push('-').drop_last() =~= a);
            }
            assert(a + b =~= "xmodem1k"@);
            assert("xmodem1k"@.len() != "xmodem"@.len());
        },
    }
}

/// The names of the protocols, in whatever case and with whatever hyphens and underscores; no
/// other name is known.
pub proof fn protocols_are_named(s: Seq<char>)
    ensures
        ({
            let n = normalized(s);
            &&& protocol_named(s) == Some(Protocol::Xmodem) <==> n == "x"@ || n == "xmodem"@
            &&& protocol_named(s) == Some(Protocol::Xmodem1k) <==> n == "x1k"@ || n
                == "xmodem1k"@ || n == "1k"@
            &&& protocol_named(s) == Some(Protocol::Ymodem) <==> n == "y"@ || n == "ymodem"@
        }),
{
    reveal_strlit("x");
    reveal_strlit("xmodem");
    reveal_strlit("x1k");
    reveal_strlit("xmodem1k");
    reveal_strlit("1k");
    reveal_strlit("y");
    reveal_strlit("ymodem");
    assert("x"@.len() == 1 && "xmodem"@.len() == 6);
    assert("x1k"@.len() == 3 && "xmodem1k"@.len() == 8 && "1k"@.len() == 2);
    assert("y"@.len() == 1 && "ymodem"@.len() == 6);
    assert("x"@[0] == 'x' && "xmodem"@[0] == 'x');
    assert("y"@[0] == 'y' && "ymodem"@[0] == 'y');
}

/// Hyphens and underscores do not count in the name of a protocol, wherever they stand, and
/// neither does the case of its letters; every other character does.
pub proof fn marks_and_case_do_not_count(a: Seq<char>, c: char, b: Seq<char>)
    ensures
        c == '-' || c == '_' ==> protocol_named(a.push(c) + b) == protocol_named(a + b),
        protocol_named(crate::text::lowered(a)) == protocol_named(a),
        c != '-' && c != '_' ==> normalized(a.push(c)) == normalized(a).push(
            crate::text::ascii_lower(c),
        ),
        normalized(Seq::empty()).len() == 0,
{
    let keep = |c: char| c != '-' && c != '_';
    let low = crate::text::ascii_lower(c);
    let x = crate::text::lowered(a);
    let y = crate::text::lowered(b);
    assert(crate::text::lowered(a.push(c)) =~= x.push(low));
    assert(crate::text::lowered(a.push(c) + b) =~= x.push(low) + y);
    assert(crate::text::lowered(a + b) =~= x + y);
    Seq::filter_distributes_over_add(x.push(low), y, keep);
    Seq::filter_distributes_over_add(x, y, keep);
    assert(x.push(low).drop_last() =~= x);
    reveal(Seq::filter);
    if a.len() > 0 {
        crate::text::lower_case_changes_letters_alone(a, 0);
    } else {
        assert(crate::text::lowered(x) =~= x);
    }
}

/// What is shown for protocols and directions.
pub proof fn names_that_are_shown()
    ensures
        Protocol::Xmodem.name() == "XMODEM"@,
        Protocol::Xmodem1k.name() == "XMODEM-1K"@,
        Protocol::Ymodem.name() == "YMODEM"@,
        Direction::Send.name() == "送信"@,
        Direction::Recv.name() == "受信"@,
{
}

} // verus!
