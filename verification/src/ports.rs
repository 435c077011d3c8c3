//! Serial ports: which of them are offered, and how their lines are controlled.

use vstd::prelude::*;

use crate::text::{concat, same, texts, to_lower};

verus! {

/// Who may stop the flow of data on a line.
#[derive(Clone, Copy, PartialEq, Eq, Debug, Structural)]
pub enum FlowControl {
    /// Nobody.
    Off,
    /// The other side, by XOFF and XON.
    Software,
    /// The other side, by the RTS and CTS lines.
    Hardware,
}

/// The flow control that `s` names, whatever its case.
pub open spec fn flow_named(s: Seq<char>) -> Option<FlowControl> {
    let n = crate::text::lowered(s);
    if n == "none"@ || n == "no"@ {
        Some(FlowControl::Off)
    } else if n == "xon"@ || n == "soft"@ || n == "sw"@ {
        Some(FlowControl::Software)
    } else if n == "rts"@ || n == "hard"@ || n == "hw"@ {
        Some(FlowControl::Hardware)
    } else {
        None
    }
}

/// The flow control that `s` names, or a message that says which names there are.
pub fn parse_flow(s: &str) -> (r: Result<FlowControl, String>)
    ensures
        match r {
            Ok(f) => flow_named(s@) == Some(f),
            Err(e) => flow_named(s@) is None && e@ == "flow は none / xon / rts のいずれか: "@ + s@,
        },
{
    let lowered = to_lower(s);
    let n = lowered.as_str();
    if same(n, "none") || same(n, "no") {
        Ok(FlowControl::Off)
    } else if same(n, "xon") || same(n, "soft") || same(n, "sw") {
        Ok(FlowControl::Software)
    } else if same(n, "rts") || same(n, "hard") || same(n, "hw") {
        Ok(FlowControl::Hardware)
    } else {
        Err(concat("flow は none / xon / rts のいずれか: ", s))
    }
}

// ---------------------------------------------------------------- the order of names

/// The order of texts: by their first difference, a beginning before what continues it. On code
/// points it is the order of the UTF-8 forms, too.
pub open spec fn text_le(a: Seq<char>, b: Seq<char>) -> bool
    decreases a.len(),
{
    if a.len() == 0 {
        true
    } else if b.len() == 0 {
        false
    } else if a[0] != b[0] {
        a[0] < b[0]
    } else {
        text_le(a.skip(1), b.skip(1))
    }
}

/// Every text is at or before itself, and of two texts one is at or before the other.
pub proof fn lemma_text_le_total(a: Seq<char>, b: Seq<char>)
    ensures
        text_le(a, a),
        text_le(a, b) || text_le(b, a),
    decreases a.len(),
{
    if a.len() > 0 {
        if b.len() > 0 {
            lemma_text_le_total(a.skip(1), b.skip(1));
        } else {
            lemma_text_le_total(a.skip(1), b);
        }
    }
}

pub proof fn lemma_text_le_transitive(a: Seq<char>, b: Seq<char>, c: Seq<char>)
    requires
        text_le(a, b),
        text_le(b, c),
    ensures
        text_le(a, c),
    decreases a.len(),
{
    if a.len() > 0 && a[0] == b[0] && b[0] == c[0] {
        lemma_text_le_transitive(a.skip(1), b.skip(1), c.skip(1));
    }
}

/// Texts that are at or before each other are the same.
pub proof fn lemma_text_le_antisymmetric(a: Seq<char>, b: Seq<char>)
    requires
        text_le(a, b),
        text_le(b, a),
    ensures
        a == b,
    decreases a.len(),
{
    if a.len() > 0 {
        lemma_text_le_antisymmetric(a.skip(1), b.skip(1));
        assert(a =~= seq![a[0]] + a.skip(1));
        assert(b =~= seq![b[0]] + b.skip(1));
    } else {
        assert(a =~= b);
    }
}

/// Whether each text is at or before those behind it.
pub open spec fn in_order(list: Seq<Seq<char>>) -> bool {
    forall|i: int, j: int| 0 <= i <= j < list.len() ==> text_le(#[trigger] list[i], #[trigger] list[j])
}

/// Lists that are in order and hold the same texts are the same list.
pub proof fn lists_in_order_agree(a: Seq<Seq<char>>, b: Seq<Seq<char>>)
    requires
        in_order(a),
        in_order(b),
        a.to_multiset() == b.to_multiset(),
    ensures
        a == b,
    decreases a.len(),
{
    a.to_multiset_ensures();
    b.to_multiset_ensures();
    if a.len() > 0 {
        let n = a.len() - 1;
        assert(a.contains(a.last()) && b.contains(b.last()));
        assert(a.to_multiset().count(a.last()) > 0 && b.to_multiset().count(b.last()) > 0);
        assert(b.contains(a.last()) && a.contains(b.last()));
        let j = choose|j: int| 0 <= j < b.len() && b[j] == a.last();
        let i = choose|i: int| 0 <= i < a.len() && a[i] == b.last();
        assert(text_le(b[j], b[n]));
        assert(text_le(a[i], a[n]));
        lemma_text_le_antisymmetric(a.last(), b.last());
        assert(a.remove(n) =~= a.drop_last());
        assert(b.remove(n) =~= b.drop_last());
        lists_in_order_agree(a.drop_last(), b.drop_last());
        assert(a =~= a.drop_last().push(a.last()));
        assert(b =~= b.drop_last().push(b.last()));
    } else {
        assert(a =~= b);
    }
}

/// Whether `a` is at or before `b`.
fn at_or_before(a: &str, b: &str) -> (r: bool)
    ensures
        r == text_le(a@, b@),
{
    let n = a.unicode_len();
    let m = b.unicode_len();
    let mut i: usize = 0;
    assert(a@.skip(0) =~= a@);
    assert(b@.skip(0) =~= b@);
    while i < n && i < m && a.get_char(i) == b.get_char(i)
        invariant
            n == a@.len(),
            m == b@.len(),
            i <= n,
            i <= m,
            text_le(a@, b@) == text_le(a@.skip(i as int), b@.skip(i as int)),
        decreases n - i,
    {
        assert(a@.skip(i as int).skip(1) =~= a@.skip(i + 1));
        assert(b@.skip(i as int).skip(1) =~= b@.skip(i + 1));
        i = i + 1;
    }
    if i == n {
        true
    } else if i == m {
        false
    } else {
        a.get_char(i) < b.get_char(i)
    }
}

/// Puts `name` into a list that is in order, where it belongs.
fn put_in_order(list: &mut Vec<String>, name: String)
    requires
        in_order(texts(old(list)@)),
    ensures
        in_order(texts(final(list)@)),
        texts(final(list)@).to_multiset() == texts(old(list)@).to_multiset().insert(name@),
{
    let ghost before = texts(list@);
    let mut k: usize = list.len();
    while k > 0 && !at_or_before(list[k - 1].as_str(), name.as_str())
        invariant
            k <= list@.len(),
            before == texts(list@),
            in_order(before),
            forall|j: int| k <= j < before.len() ==> text_le(name@, #[trigger] before[j]),
        decreases k,
    {
        proof {
            lemma_text_le_total(before[k - 1], name@);
        }
        k = k - 1;
    }
    list.insert(k, name);
    proof {
        let now = texts(list@);
        assert(now =~= before.insert(k as int, name@));
        assert forall|i: int, j: int| 0 <= i <= j < now.len() implies text_le(
            #[trigger] now[i],
            #[trigger] now[j],
        ) by {
            lemma_text_le_total(name@, name@);
            let oi = if i < k { i } else { i - 1 };
            let oj = if j < k { j } else { j - 1 };
            if i < k {
                assert(now[i] == before[i]);
                assert(text_le(before[i], before[k - 1]));
                assert(text_le(before[k - 1], name@));
                lemma_text_le_transitive(before[i], before[k - 1], name@);
            }
            if i != k {
                assert(now[i] == before[oi]);
            }
            if j != k {
                assert(now[j] == before[oj]);
            }
        }
        now.to_multiset_ensures();
        assert(now.remove(k as int) =~= before);
        assert(now[k as int] == name@);
        assert(now.contains(name@));
        assert(now.to_multiset().remove(name@).insert(name@) =~= now.to_multiset());
    }
}

// ---------------------------------------------------------------- the list of ports

/// Whether a port is offered: on macOS every port has a `tty` and a `cu` name, and calls go out
/// on the latter.
pub open spec fn is_offered(name: Seq<char>) -> bool {
    !"/dev/tty."@.is_prefix_of(name)
}

/// Whether the port is offered.
fn offered(name: &str) -> (r: bool)
    ensures
        r == is_offered(name@),
{
    let prefix = "/dev/tty.";
    let n = prefix.unicode_len();
    if name.unicode_len() < n {
        return true;
    }
    let mut i: usize = 0;
    while i < n
        invariant
            n == prefix@.len(),
            n <= name@.len(),
            i <= n,
            prefix@ == "/dev/tty."@,
            forall|j: int| 0 <= j < i ==> prefix@[j] == name@[j],
        decreases n - i,
    {
        if prefix.get_char(i) != name.get_char(i) {
            assert(prefix@[i as int] != name@.subrange(0, n as int)[i as int]);
            return true;
        }
        i = i + 1;
    }
    assert(name@.subrange(0, n as int) =~= prefix@);
    false
}

/// The ports to offer out of all ports of the system, in the order of their names.
pub fn list_ports(names: Vec<String>) -> (r: Vec<String>)
    ensures
        in_order(texts(r@)),
        texts(r@).to_multiset() == texts(names@).filter(
            |n: Seq<char>| is_offered(n),
        ).to_multiset(),
{
    let mut ports: Vec<String> = Vec::new();
    let mut i: usize = 0;
    let ghost keep = |n: Seq<char>| is_offered(n);
    let ghost all = texts(names@);
    proof {
        reveal(Seq::filter);
        assert(texts(ports@) =~= Seq::empty());
        assert(all.take(0).filter(keep) =~= Seq::empty());
    }
    while i < names.len()
        invariant
            i <= names@.len(),
            all == texts(names@),
            keep == (|n: Seq<char>| is_offered(n)),
            in_order(texts(ports@)),
            texts(ports@).to_multiset() == all.take(i as int).filter(keep).to_multiset(),
        decreases names@.len() - i,
    {
        proof {
            reveal(Seq::filter);
            assert(all.take(i + 1).drop_last() =~= all.take(i as int));
            assert(all.take(i + 1).last() == names@[i as int]@);
        }
        if offered(names[i].as_str()) {
            put_in_order(&mut ports, names[i].clone());
            proof {
                let f = all.take(i as int).filter(keep);
                assert(all.take(i + 1).filter(keep) == f.push(names@[i as int]@));
                f.to_multiset_ensures();
            }
        }
        i = i + 1;
    }
    assert(all.take(i as int) =~= all);
    ports
}

// ---------------------------------------------------------------- laws of names

/// Two texts that agree in their first `k` characters are in the order of the characters behind
/// those; a text comes before every text that it begins, and not behind it.
pub proof fn order_is_by_the_first_difference(a: Seq<char>, b: Seq<char>, k: int)
    requires
        0 <= k <= a.len(),
        k <= b.len(),
        a.take(k) == b.take(k),
    ensures
        k < a.len() && k < b.len() && a[k] != b[k] ==> text_le(a, b) == (a[k] < b[k]),
        k == a.len() ==> text_le(a, b),
        k == b.len() && k < a.len() ==> !text_le(a, b),
    decreases k,
{
    if k > 0 {
        assert(a.take(k)[0] == a[0] && b.take(k)[0] == b[0]);
        assert(k < a.len() ==> a.skip(1)[k - 1] == a[k]);
        assert(k < b.len() ==> b.skip(1)[k - 1] == b[k]);
        assert(a.skip(1).take(k - 1) =~= a.take(k).skip(1));
        assert(b.skip(1).take(k - 1) =~= b.take(k).skip(1));
        order_is_by_the_first_difference(a.skip(1), b.skip(1), k - 1);
    }
}

/// A port is left out where its name begins with `/dev/tty.`, and only there.
pub proof fn only_call_in_ports_are_left_out(name: Seq<char>, rest: Seq<char>)
    ensures
        !is_offered(seq!['/', 'd', 'e', 'v', '/', 't', 't', 'y', '.'] + rest),
        !is_offered(name) ==> name.len() >= 9 && name.take(9) == seq![
            '/',
            'd',
            'e',
            'v',
            '/',
            't',
            't',
            'y',
            '.',
        ],
{
    reveal_strlit("/dev/tty.");
    let p = seq!['/', 'd', 'e', 'v', '/', 't', 't', 'y', '.'];
    assert("/dev/tty."@ =~= p);
    assert((p + rest).subrange(0, 9) =~= p);
    if !is_offered(name) {
        assert(name.take(9) =~= p);
    }
}

/// The names of the kinds of flow control, in whatever case; no other name is known.
pub proof fn flow_control_is_named(s: Seq<char>)
    ensures
        ({
            let n = crate::text::lowered(s);
            &&& flow_named(s) == Some(FlowControl::Off) <==> n == "none"@ || n == "no"@
            &&& flow_named(s) == Some(FlowControl::Software) <==> n == "xon"@ || n == "soft"@ || n
                == "sw"@
            &&& flow_named(s) == Some(FlowControl::Hardware) <==> n == "rts"@ || n == "hard"@ || n
                == "hw"@
            &&& flow_named(n) == flow_named(s)
        }),
{
    reveal_strlit("none");
    reveal_strlit("no");
    reveal_strlit("xon");
    reveal_strlit("soft");
    reveal_strlit("sw");
    reveal_strlit("rts");
    reveal_strlit("hard");
    reveal_strlit("hw");
    let n = crate::text::lowered(s);
    if s.len() > 0 {
        crate::text::lower_case_changes_letters_alone(s, 0);
    } else {
        assert(crate::text::lowered(n) =~= n);
    }
    assert("none"@[0] == 'n' && "no"@[0] == 'n');
    assert("xon"@[0] == 'x' && "soft"@[0] == 's' && "sw"@[0] == 's');
    assert("rts"@[0] == 'r' && "hard"@[0] == 'h' && "hw"@[0] == 'h');
}

} // verus!
