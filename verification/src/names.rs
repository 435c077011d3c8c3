//! File names: what YMODEM's block 0 says of a file, and the name under which it is kept.

use vstd::prelude::*;
use vstd::slice::slice_subrange;

use crate::text::{push_decimal, same};

verus! {

// ---------------------------------------------------------------- character codes

/// `std::str::from_utf8`: the text whose UTF-8 form is `raw`, or `None` where `raw` is not valid
/// UTF-8.
#[verifier::external_body]
fn utf8_text(raw: &[u8]) -> (r: Option<&str>)
    ensures
        match r {
            Some(s) => vstd::utf8::encode_utf8(s@) == raw@,
            None => !vstd::utf8::valid_utf8(raw@),
        },
{
    std::str::from_utf8(raw).ok()
}

/// What `encoding_rs::SHIFT_JIS.decode` makes of the bytes: a byte order mark selects the
/// Unicode form that it marks, malformed sequences become U+FFFD.
pub uninterp spec fn shift_jis_text(raw: Seq<u8>) -> Seq<char>;

/// `encoding_rs::Encoding::decode` on `SHIFT_JIS`; its text is named by `shift_jis_text`. Its
/// buffer takes up to eight bytes for one of `raw`, and it panics where that overflows.
#[verifier::external_body]
fn decode_shift_jis(raw: &[u8]) -> (r: String)
    requires
        raw@.len() <= usize::MAX / 32,
    ensures
        r@ == shift_jis_text(raw@),
{
    encoding_rs::SHIFT_JIS.decode(raw).0.into_owned()
}

/// The text of a received file name: UTF-8 where it is valid, Shift_JIS otherwise.
pub open spec fn name_text(raw: Seq<u8>) -> Seq<char> {
    if vstd::utf8::valid_utf8(raw) {
        vstd::utf8::decode_utf8(raw)
    } else {
        shift_jis_text(raw)
    }
}

/// The text of a received file name.
pub fn decode_name(raw: &[u8]) -> (r: String)
    requires
        raw@.len() <= usize::MAX / 32,
    ensures
        r@ == name_text(raw@),
{
    match utf8_text(raw) {
        Some(s) => {
            proof {
                vstd::utf8::encode_utf8_valid_utf8(s@);
                vstd::utf8::encode_utf8_decode_utf8(s@);
            }
            s.to_owned()
        },
        None => decode_shift_jis(raw),
    }
}

/// A name sent in UTF-8 is read back as it was.
pub proof fn decode_name_inverts_utf8(name: Seq<char>)
    ensures
        name_text(vstd::utf8::encode_utf8(name)) == name,
{
    vstd::utf8::encode_utf8_valid_utf8(name);
    vstd::utf8::encode_utf8_decode_utf8(name);
}

// ---------------------------------------------------------------- safe names

/// Separators of path components.
pub open spec fn is_separator(c: char) -> bool {
    c == '/' || c == '\\'
}

/// Unicode control characters: the C0 and C1 sets and DEL.
pub open spec fn is_control(c: char) -> bool {
    c as u32 <= 0x1f || (0x7f <= c as u32 && c as u32 <= 0x9f)
}

/// Where the last component of `s` starts.
pub open spec fn base_start(s: Seq<char>) -> nat
    decreases s.len(),
{
    if s.len() == 0 || is_separator(s.last()) {
        s.len()
    } else {
        base_start(s.drop_last())
    }
}

/// The last component of `s`, without control characters.
pub open spec fn base_name(s: Seq<char>) -> Seq<char> {
    s.skip(base_start(s) as int).filter(|c: char| !is_control(c))
}

/// The name under which a file announced as `s` is kept: its last component, or a fixed name
/// where nothing usable is left.
pub open spec fn safe(s: Seq<char>) -> Seq<char> {
    let b = base_name(s);
    if b.len() == 0 || b == "."@ || b == ".."@ {
        "received.bin"@
    } else {
        b
    }
}

proof fn lemma_base_start(s: Seq<char>)
    ensures
        base_start(s) <= s.len(),
        forall|i: int| base_start(s) <= i < s.len() ==> !is_separator(s[i]),
        base_start(s) > 0 ==> is_separator(s[base_start(s) - 1]),
    decreases s.len(),
{
    if s.len() > 0 && !is_separator(s.last()) {
        lemma_base_start(s.drop_last());
        assert forall|i: int| base_start(s) <= i < s.len() implies !is_separator(s[i]) by {
            if i < s.len() - 1 {
                assert(s.drop_last()[i] == s[i]);
            }
        }
    }
}

/// The name under which a file announced as `name` is kept.
pub fn safe_name(name: &str) -> (r: String)
    ensures
        r@ == safe(name@),
{
    let n = name.unicode_len();
    let mut start: usize = n;
    proof {
        assert(name@.take(n as int) =~= name@);
    }
    while start > 0 && !(name.get_char(start - 1) == '/' || name.get_char(start - 1) == '\\')
        invariant
            start <= n == name@.len(),
            base_start(name@) == base_start(name@.take(start as int)),
        decreases start,
    {
        assert(name@.take(start as int).drop_last() =~= name@.take(start - 1));
        start = start - 1;
    }
    assert(base_start(name@) == start);
    let ghost keep = |c: char| !is_control(c);
    let ghost base = name@.skip(start as int);
    let mut r = String::new();
    let mut i: usize = start;
    assert(base.take(0).filter(keep) =~= Seq::empty()) by {
        reveal(Seq::filter);
    }
    while i < n
        invariant
            start <= i <= n == name@.len(),
            base == name@.skip(start as int),
            keep == (|c: char| !is_control(c)),
            r@ == base.take(i - start).filter(keep),
        decreases n - i,
    {
        let c = name.get_char(i);
        let code = c as u32;
        proof {
            reveal(Seq::filter);
            assert(base.take(i + 1 - start).drop_last() =~= base.take(i - start));
        }
        if !(code <= 0x1f || (0x7f <= code && code <= 0x9f)) {
            r.push(c);
        }
        i = i + 1;
    }
    assert(base.take(i - start) =~= base);
    if r.as_str().is_empty() || same(r.as_str(), ".") || same(r.as_str(), "..") {
        "received.bin".to_owned()
    } else {
        r
    }
}

/// A kept name is one component of a path: not empty, neither `.` nor `..`, without separators
/// and without control characters.
pub proof fn safe_name_is_one_component(name: Seq<char>)
    ensures
        safe(name).len() > 0,
        safe(name) != "."@,
        safe(name) != ".."@,
        forall|i: int|
            0 <= i < safe(name).len() ==> !is_separator(#[trigger] safe(name)[i]) && !is_control(
                safe(name)[i],
            ),
{
    reveal_strlit("received.bin");
    reveal_strlit(".");
    reveal_strlit("..");
    let rest = name.skip(base_start(name) as int);
    let keep = |c: char| !is_control(c);
    let b = rest.filter(keep);
    assert("received.bin"@.len() == 12 && "."@.len() == 1 && ".."@.len() == 2);
    lemma_base_start(name);
    assert forall|i: int| 0 <= i < b.len() implies !is_separator(#[trigger] b[i]) && !is_control(
        b[i],
    ) by {
        rest.lemma_filter_pred(keep, i);
        rest.lemma_filter_contains_rev(keep, b[i]);
    }
}

/// A kept name is kept under the same name again.
pub proof fn safe_name_is_stable(name: Seq<char>)
    ensures
        safe(safe(name)) == safe(name),
{
    let s = safe(name);
    safe_name_is_one_component(name);
    lemma_base_start(s);
    assert(base_start(s) == 0);
    assert(s.skip(0) =~= s);
    lemma_filter_keeps(s);
}

/// A text without control characters has nothing to lose.
proof fn lemma_filter_keeps(s: Seq<char>)
    requires
        forall|i: int| 0 <= i < s.len() ==> !is_control(s[i]),
    ensures
        s.filter(|c: char| !is_control(c)) == s,
    decreases s.len(),
{
    reveal(Seq::filter);
    if s.len() > 0 {
        lemma_filter_keeps(s.drop_last());
        assert(s.drop_last().push(s.last()) =~= s);
    }
}

/// A plain name, one component without control characters, is kept as it is.
pub proof fn safe_name_keeps_plain(name: Seq<char>)
    requires
        name.len() > 0,
        name != "."@,
        name != ".."@,
        forall|i: int| 0 <= i < name.len() ==> !is_separator(name[i]) && !is_control(name[i]),
    ensures
        safe(name) == name,
{
    lemma_base_start(name);
    assert(name.skip(0) =~= name);
    lemma_filter_keeps(name);
}

/// What is tried in place of a path that is taken: the path with a number behind it.
pub open spec fn numbered(path: Seq<char>, copy: nat) -> Seq<char> {
    if copy == 0 {
        path
    } else {
        path + "."@ + crate::text::decimal(copy)
    }
}

/// The path to try as number `copy`: 0 is `path` itself.
pub fn unique_path(path: &str, copy: u64) -> (r: String)
    ensures
        r@ == numbered(path@, copy as nat),
{
    let mut r = path.to_owned();
    if copy > 0 {
        r.append(".");
        push_decimal(&mut r, copy);
    }
    r
}

/// Paths tried for one file differ from each other.
pub proof fn numbered_paths_differ(path: Seq<char>, i: nat, j: nat)
    requires
        i != j,
    ensures
        numbered(path, i) != numbered(path, j),
{
    reveal_strlit(".");
    if i == 0 || j == 0 {
        let k = if i == 0 { j } else { i };
        assert(numbered(path, k).len() > path.len());
    } else {
        crate::text::lemma_decimal_injective(i, j);
        let n = path.len() + 1;
        assert(numbered(path, i).skip(n as int) =~= crate::text::decimal(i));
        assert(numbered(path, j).skip(n as int) =~= crate::text::decimal(j));
    }
}

/// The name shown for a path: its last component where it has one, else the whole path.
pub fn file_name(component: Option<String>, path: String) -> (r: String)
    ensures
        r@ == match component {
            Some(c) => c@,
            None => path@,
        },
{
    match component {
        Some(c) => c,
        None => path,
    }
}

// ---------------------------------------------------------------- block 0

/// How many bytes precede the first NUL (with `space`: the first NUL or space).
pub open spec fn run_len(s: Seq<u8>, space: bool) -> nat
    decreases s.len(),
{
    if s.len() == 0 || s[0] == 0 || (space && s[0] == 0x20) {
        0
    } else {
        1 + run_len(s.skip(1), space)
    }
}

/// The name field of block 0: what precedes the first NUL.
pub open spec fn name_field(body: Seq<u8>) -> Seq<u8> {
    body.take(run_len(body, false) as int)
}

/// What follows the name field and its NUL.
pub open spec fn after_name(body: Seq<u8>) -> Seq<u8> {
    if run_len(body, false) < body.len() {
        body.skip(run_len(body, false) as int + 1)
    } else {
        Seq::empty()
    }
}

/// The size field of block 0: what follows the name, up to a NUL or a space.
pub open spec fn size_field(body: Seq<u8>) -> Seq<u8> {
    after_name(body).take(run_len(after_name(body), true) as int)
}

pub proof fn lemma_run_len(s: Seq<u8>, space: bool)
    ensures
        run_len(s, space) <= s.len(),
    decreases s.len(),
{
    if !(s.len() == 0 || s[0] == 0 || (space && s[0] == 0x20)) {
        lemma_run_len(s.skip(1), space);
    }
}

/// How many bytes of `s` precede the first NUL (with `space`: the first NUL or space).
fn count_run(s: &[u8], space: bool) -> (n: usize)
    ensures
        n == run_len(s@, space),
        n <= s@.len(),
{
    let mut n: usize = 0;
    assert(s@.skip(0) =~= s@);
    proof {
        lemma_run_len(s@, space);
    }
    while n < s.len() && s[n] != 0 && !(space && s[n] == 0x20)
        invariant
            n <= s@.len(),
            run_len(s@, space) == n + run_len(s@.skip(n as int), space),
        decreases s@.len() - n,
    {
        assert(s@.skip(n as int).skip(1) =~= s@.skip(n + 1));
        n = n + 1;
    }
    n
}

/// An ASCII digit.
pub open spec fn is_digit(b: u8) -> bool {
    48 <= b <= 57
}

/// The number that a run of digits stands for.
pub open spec fn decimal_value(s: Seq<u8>) -> nat
    decreases s.len(),
{
    if s.len() == 0 {
        0
    } else {
        decimal_value(s.drop_last()) * 10 + (s.last() - 48) as nat
    }
}

/// The value of a run of digits: at least one, and a value that fits in 64 bits.
pub open spec fn digits_value(d: Seq<u8>) -> Option<u64> {
    if d.len() > 0 && (forall|i: int| 0 <= i < d.len() ==> is_digit(d[i])) && decimal_value(d)
        <= u64::MAX {
        Some(decimal_value(d) as u64)
    } else {
        None
    }
}

/// The number that `s` spells: digits, perhaps behind a plus sign.
pub open spec fn size_value(s: Seq<u8>) -> Option<u64> {
    if s.len() > 0 && s[0] == 0x2b {
        digits_value(s.skip(1))
    } else {
        digits_value(s)
    }
}

proof fn lemma_decimal_value_grows(s: Seq<u8>, i: int)
    requires
        0 <= i <= s.len(),
        forall|i: int| 0 <= i < s.len() ==> is_digit(s[i]),
    ensures
        decimal_value(s.take(i)) <= decimal_value(s),
    decreases s.len(),
{
    if i < s.len() {
        lemma_decimal_value_grows(s.drop_last(), i);
        assert(s.drop_last().take(i) =~= s.take(i));
    } else {
        assert(s.take(i) =~= s);
    }
}

/// The number that `s` spells, if it does.
pub fn parse_size(s: &[u8]) -> (r: Option<u64>)
    ensures
        r == size_value(s@),
{
    let start: usize = if s.len() > 0 && s[0] == 0x2b { 1 } else { 0 };
    let ghost d = s@.skip(start as int);
    assert(start == 0 ==> d =~= s@);
    if s.len() == start {
        return None;
    }
    let mut v: u64 = 0;
    let mut i: usize = start;
    while i < s.len()
        invariant
            start <= i <= s@.len(),
            d == s@.skip(start as int),
            forall|k: int| 0 <= k < i - start ==> is_digit(d[k]),
            v == decimal_value(d.take(i - start)),
            d.len() > 0,
            size_value(s@) == digits_value(d),
        decreases s@.len() - i,
    {
        let b = s[i];
        assert(d[i - start] == b);
        if b < 48 || b > 57 {
            assert(!is_digit(d[i - start]));
            return None;
        }
        assert(d.take(i + 1 - start).drop_last() =~= d.take(i - start));
        assert(decimal_value(d.take(i + 1 - start)) == v * 10 + (b - 48));
        proof {
            if forall|i: int| 0 <= i < d.len() ==> is_digit(d[i]) {
                lemma_decimal_value_grows(d, i + 1 - start);
            }
        }
        let digit = (b - 48) as u64;
        if v > u64::MAX / 10 || v * 10 > u64::MAX - digit {
            return None;
        }
        v = v * 10 + digit;
        i = i + 1;
    }
    assert(d.take(i - start) =~= d);
    Some(v)
}

/// What block 0 announces.
pub struct Announced {
    /// The name under which the file is kept.
    pub name: String,
    /// The file's length, where block 0 gives one.
    pub size: Option<u64>,
}

/// The name and size that the block 0 with this body announces.
pub fn read_header(body: &[u8]) -> (r: Announced)
    requires
        body@.len() <= usize::MAX / 32,
    ensures
        r.name@ == safe(name_text(name_field(body@))),
        r.size == size_value(size_field(body@)),
{
    let nul = count_run(body, false);
    let name = decode_name(slice_subrange(body, 0, nul));
    let from: usize = if nul < body.len() { nul + 1 } else { body.len() };
    let rest = slice_subrange(body, from, body.len());
    assert(body@.subrange(0, nul as int) =~= name_field(body@));
    assert(rest@ =~= after_name(body@));
    let n = count_run(rest, true);
    let field = slice_subrange(rest, 0, n);
    assert(field@ =~= size_field(body@));
    Announced { name: safe_name(name.as_str()), size: parse_size(field) }
}

// ---------------------------------------------------------------- reading back

/// A run that nothing stops ends where a stop follows it.
proof fn lemma_run_len_of(a: Seq<u8>, rest: Seq<u8>, space: bool)
    requires
        forall|i: int| 0 <= i < a.len() ==> a[i] != 0 && !(space && a[i] == 0x20),
        rest.len() > 0,
        rest[0] == 0 || (space && rest[0] == 0x20),
    ensures
        run_len(a + rest, space) == a.len(),
    decreases a.len(),
{
    if a.len() == 0 {
        assert(a + rest =~= rest);
    } else {
        lemma_run_len_of(a.skip(1), rest, space);
        assert((a + rest).skip(1) =~= a.skip(1) + rest);
    }
}

/// The decimal digits of a number spell it.
proof fn lemma_digits_value(n: nat)
    ensures
        crate::packet::digits(n, 10).len() > 0,
        forall|i: int|
            0 <= i < crate::packet::digits(n, 10).len() ==> is_digit(
                #[trigger] crate::packet::digits(n, 10)[i],
            ),
        decimal_value(crate::packet::digits(n, 10)) == n,
    decreases n,
{
    let d = crate::packet::digits(n, 10);
    if n < 10 {
        assert(d.drop_last() =~= Seq::empty());
        assert(decimal_value(d.drop_last()) == 0);
    } else {
        lemma_digits_value(n / 10);
        assert(d.drop_last() =~= crate::packet::digits(n / 10, 10));
    }
}

/// A size written in decimal is read back as it was.
pub proof fn size_is_read_back(n: u64)
    ensures
        size_value(crate::packet::digits(n as nat, 10)) == Some(n),
{
    lemma_digits_value(n as nat);
    let d = crate::packet::digits(n as nat, 10);
    assert(is_digit(d[0]));
}

/// Block 0 gives back the name and the size of the file that it was made for, where the name is
/// neither empty nor cut off and holds no NUL.
pub proof fn header_is_read_back(name: Seq<u8>, size: u64, mtime: nat)
    requires
        name.len() > 0,
        forall|i: int| 0 <= i < name.len() ==> name[i] != 0,
        crate::packet::header_text(name, size as nat, mtime).len() <= 1024,
    ensures
        ({
            let text = crate::packet::header_text(name, size as nat, mtime);
            let body = crate::packet::padded(text, crate::packet::header_size(text), 0);
            &&& body[0] != 0
            &&& name_field(body) == name
            &&& size_value(size_field(body)) == Some(size)
        }),
{
    let text = crate::packet::header_text(name, size as nat, mtime);
    let body = crate::packet::padded(text, crate::packet::header_size(text), 0);
    let d = crate::packet::digits(size as nat, 10);
    let nul = name.len() as int;
    lemma_digits_value(size as nat);
    let rest = body.skip(nul);
    assert(body =~= name + rest);
    assert(rest[0] == text[nul]);
    lemma_run_len_of(name, rest, false);
    assert(name_field(body) =~= name);
    let after = body.skip(nul + 1);
    assert(after_name(body) =~= after);
    let tail = after.skip(d.len() as int);
    assert forall|i: int| 0 <= i < d.len() implies after[i] == d[i] by {
        assert(after[i] == text[nul + 1 + i]);
    }
    assert(after =~= d + tail);
    assert(tail[0] == text[nul + 1 + d.len()]);
    assert(tail[0] == 0x20);
    assert forall|i: int| 0 <= i < d.len() implies d[i] != 0 && !(true && d[i] == 0x20) by {
        assert(is_digit(d[i]));
    }
    lemma_run_len_of(d, tail, true);
    assert(size_field(body) =~= d);
    size_is_read_back(size);
}

/// What stops a run: a NUL, or with `space` a space as well.
pub open spec fn stops(b: u8, space: bool) -> bool {
    b == 0 || space && b == 0x20
}

/// A run ends at the first byte that stops it, or at the end.
pub proof fn run_ends_at_the_first_stop(s: Seq<u8>, space: bool)
    ensures
        run_len(s, space) <= s.len(),
        forall|i: int| 0 <= i < run_len(s, space) ==> !stops(#[trigger] s[i], space),
        run_len(s, space) < s.len() ==> stops(s[run_len(s, space) as int], space),
    decreases s.len(),
{
    if s.len() > 0 && !stops(s[0], space) {
        let t = s.skip(1);
        run_ends_at_the_first_stop(t, space);
        assert forall|i: int| 0 <= i < run_len(s, space) implies !stops(
            #[trigger] s[i],
            space,
        ) by {
            if i > 0 {
                assert(t[i - 1] == s[i]);
            }
        }
        if run_len(s, space) < s.len() {
            assert(t[run_len(t, space) as int] == s[run_len(s, space) as int]);
        }
    }
}

/// The fields of a block 0: the name stands before the first NUL, and the size behind that, up to
/// the next NUL or space.
pub proof fn header_fields_stand_between_stops(body: Seq<u8>, i: int, j: int)
    requires
        0 <= i < j < body.len(),
        body[i] == 0,
        forall|k: int| 0 <= k < i ==> #[trigger] body[k] != 0,
        stops(body[j], true),
        forall|k: int| i < k < j ==> !stops(#[trigger] body[k], true),
    ensures
        name_field(body) == body.subrange(0, i),
        size_field(body) == body.subrange(i + 1, j),
{
    run_ends_at_the_first_stop(body, false);
    let n = run_len(body, false) as int;
    assert(n == i) by {
        if n < i {
            assert(body[n] != 0);
        } else if n > i {
            assert(!stops(body[i], false));
        }
    }
    let rest = body.skip(i + 1);
    assert(after_name(body) == rest);
    run_ends_at_the_first_stop(rest, true);
    let m = run_len(rest, true) as int;
    assert(rest[j - i - 1] == body[j]);
    assert(m == j - i - 1) by {
        if m < j - i - 1 {
            assert(rest[m] == body[i + 1 + m]);
        } else if m > j - i - 1 {
            assert(!stops(rest[j - i - 1], true));
        }
    }
    assert(name_field(body) =~= body.subrange(0, i));
    assert(size_field(body) =~= body.subrange(i + 1, j));
}

/// Digits spell the number that they stand for, with leading zeros and behind a plus sign, too;
/// nothing else spells a number, and none that does not fit in 64 bits.
pub proof fn only_digits_spell_sizes(s: Seq<u8>, n: u64, zeros: nat)
    ensures
        ({
            let d = crate::packet::digits(n as nat, 10);
            let z = Seq::new(zeros, |i: int| 48u8);
            &&& size_value(d) == Some(n)
            &&& size_value(z + d) == Some(n)
            &&& size_value(seq![0x2bu8] + d) == Some(n)
        }),
        size_value(Seq::empty()) is None,
        size_value(seq![0x2bu8]) is None,
        size_value(s) is Some ==> s.len() > 0 && (forall|i: int|
            0 < i < s.len() ==> 48 <= #[trigger] s[i] && s[i] <= 57) && (s[0] == 0x2b || 48
            <= s[0] <= 57),
        s.len() > 0 && (forall|i: int| 0 <= i < s.len() ==> 48 <= #[trigger] s[i] && s[i] <= 57)
            ==> size_value(s) == if crate::packet::spelled(s, 10) <= u64::MAX {
            Some(crate::packet::spelled(s, 10) as u64)
        } else {
            None
        },
{
    let d = crate::packet::digits(n as nat, 10);
    let z = Seq::new(zeros, |i: int| 48u8);
    size_is_read_back(n);
    lemma_digits_value(n as nat);
    lemma_zeros_in_front(zeros, d);
    assert(is_digit(d[0]));
    let e = z + d;
    assert forall|i: int| 0 <= i < e.len() implies is_digit(e[i]) by {
        if i >= zeros {
            assert(e[i] == d[i - zeros]);
        }
    }
    assert(is_digit(e[0]));
    assert((seq![0x2bu8] + d).skip(1) =~= d);
    assert(seq![0x2bu8].skip(1).len() == 0);
    if size_value(s) is Some {
        let t = if s[0] == 0x2b {
            s.skip(1)
        } else {
            s
        };
        assert forall|i: int| 0 < i < s.len() implies 48 <= #[trigger] s[i] && s[i] <= 57 by {
            assert(is_digit(t[if s[0] == 0x2b {
                i - 1
            } else {
                i
            }]));
        }
        if s[0] != 0x2b {
            assert(is_digit(t[0]));
        }
    }
    if s.len() > 0 && (forall|i: int|
        0 <= i < s.len() ==> 48 <= #[trigger] s[i] && s[i] <= 57) {
        assert forall|i: int| 0 <= i < s.len() implies is_digit(s[i]) by {}
        assert(is_digit(s[0]));
        lemma_spelled(s);
    }
}

proof fn lemma_spelled(s: Seq<u8>)
    ensures
        decimal_value(s) == crate::packet::spelled(s, 10),
    decreases s.len(),
{
    if s.len() > 0 {
        lemma_spelled(s.drop_last());
    }
}

proof fn lemma_zeros_in_front(zeros: nat, d: Seq<u8>)
    ensures
        decimal_value(Seq::new(zeros, |i: int| 48u8) + d) == decimal_value(d),
    decreases zeros + d.len(),
{
    let z = Seq::new(zeros, |i: int| 48u8);
    let e = z + d;
    if d.len() > 0 {
        lemma_zeros_in_front(zeros, d.drop_last());
        assert(e.drop_last() =~= z + d.drop_last());
    } else if zeros > 0 {
        lemma_zeros_in_front((zeros - 1) as nat, d);
        assert(e.drop_last() =~= Seq::new((zeros - 1) as nat, |i: int| 48u8) + d);
    } else {
        assert(e =~= d);
    }
}

/// Whatever stands before a separator does not count: the name is that of what follows the last
/// one.
pub proof fn only_the_last_component_counts(dir: Seq<char>, sep: char, name: Seq<char>)
    requires
        sep == '/' || sep == '\\',
        forall|i: int| 0 <= i < name.len() ==> #[trigger] name[i] != '/' && name[i] != '\\',
    ensures
        safe(dir.push(sep) + name) == safe(name),
        name.len() == 0 ==> safe(dir.push(sep) + name) == "received.bin"@,
{
    let s = dir.push(sep) + name;
    lemma_base_start(s);
    lemma_base_start(name);
    let n = dir.len() + 1;
    let b = base_start(s) as int;
    assert(s[n - 1] == sep);
    assert(b == n) by {
        if b < n {
            assert(!is_separator(s[n - 1]));
        } else if b > n {
            assert(s[b - 1] == name[b - 1 - n]);
            assert(is_separator(s[b - 1]));
        }
    }
    assert(base_start(name) == 0) by {
        let c = base_start(name) as int;
        if c > 0 {
            assert(is_separator(name[c - 1]));
        }
    }
    assert(s.skip(b) =~= name);
    assert(name.skip(0) =~= name);
    if name.len() == 0 {
        reveal(Seq::filter);
    }
}

/// Control characters in a name are dropped: a name with one of them anywhere is kept like the
/// name without it.
pub proof fn control_characters_are_dropped(a: Seq<char>, c: char, b: Seq<char>)
    requires
        c < ' ' || '\u{7f}' <= c && c <= '\u{9f}',
        forall|i: int| 0 <= i < a.len() ==> !is_separator(#[trigger] a[i]),
        forall|i: int| 0 <= i < b.len() ==> !is_separator(#[trigger] b[i]),
    ensures
        safe(a.push(c) + b) == safe(a + b),
{
    let s = a.push(c) + b;
    let t = a + b;
    let keep = |c: char| !is_control(c);
    lemma_base_start(s);
    lemma_base_start(t);
    assert(base_start(s) == 0) by {
        let k = base_start(s) as int;
        if k > 0 {
            assert(is_separator(s[k - 1]));
        }
    }
    assert(base_start(t) == 0) by {
        let k = base_start(t) as int;
        if k > 0 {
            assert(is_separator(t[k - 1]));
        }
    }
    assert(s.skip(0) =~= s);
    assert(t.skip(0) =~= t);
    Seq::filter_distributes_over_add(a.push(c), b, keep);
    Seq::filter_distributes_over_add(a, b, keep);
    assert(a.push(c).filter(keep) == a.filter(keep)) by {
        reveal(Seq::filter);
        assert(a.push(c).drop_last() =~= a);
    }
}

/// `.`, `..` and names of which nothing is left are kept under one fixed name.
pub proof fn unusable_names_are_replaced(name: Seq<char>)
    requires
        name == "."@ || name == ".."@ || (forall|i: int|
            0 <= i < name.len() ==> is_control(#[trigger] name[i])),
    ensures
        safe(name) == "received.bin"@,
{
    reveal_strlit(".");
    reveal_strlit("..");
    lemma_base_start(name);
    assert(base_start(name) == 0) by {
        let k = base_start(name) as int;
        if k > 0 {
            assert(is_separator(name[k - 1]));
            assert(!is_control(name[k - 1]));
        }
    }
    assert(name.skip(0) =~= name);
    if name == "."@ || name == ".."@ {
        lemma_filter_keeps(name);
    } else {
        lemma_nothing_left(name);
    }
}

proof fn lemma_nothing_left(s: Seq<char>)
    requires
        forall|i: int| 0 <= i < s.len() ==> is_control(#[trigger] s[i]),
    ensures
        s.filter(|c: char| !is_control(c)).len() == 0,
    decreases s.len(),
{
    reveal(Seq::filter);
    if s.len() > 0 {
        assert forall|i: int| 0 <= i < s.drop_last().len() implies is_control(
            #[trigger] s.drop_last()[i],
        ) by {
            assert(s[i] == s.drop_last()[i]);
        }
        lemma_nothing_left(s.drop_last());
        assert(is_control(s[s.len() - 1]));
    }
}

/// Numbered paths: number 0 is the path itself, another is the path, a dot and the number.
pub proof fn numbers_stand_behind_a_dot(path: Seq<char>, copy: nat)
    ensures
        numbered(path, 0) == path,
        copy > 0 ==> numbered(path, copy) == path.push('.') + crate::text::decimal(copy),
{
    reveal_strlit(".");
    assert(path + "."@ =~= path.push('.'));
}

/// A name that is valid UTF-8 is taken as that, and any other as Shift_JIS.
pub proof fn names_are_utf8_or_shift_jis(raw: Seq<u8>)
    ensures
        vstd::utf8::valid_utf8(raw) ==> vstd::utf8::encode_utf8(name_text(raw)) == raw,
        !vstd::utf8::valid_utf8(raw) ==> name_text(raw) == shift_jis_text(raw),
{
    if vstd::utf8::valid_utf8(raw) {
        vstd::utf8::decode_utf8_encode_utf8(raw);
    }
}

/// A block 0 without a NUL is all name; one without a stop behind its name has its size at the
/// end.
pub proof fn header_fields_may_reach_the_end(body: Seq<u8>, i: int)
    ensures
        (forall|k: int| 0 <= k < body.len() ==> #[trigger] body[k] != 0) ==> name_field(body)
            == body && size_field(body).len() == 0,
        0 <= i < body.len() && body[i] == 0 && (forall|k: int| 0 <= k < i ==> #[trigger] body[k]
            != 0) && (forall|k: int| i < k < body.len() ==> !stops(#[trigger] body[k], true))
            ==> name_field(body) == body.subrange(0, i) && size_field(body) == body.subrange(
            i + 1,
            body.len() as int,
        ),
{
    run_ends_at_the_first_stop(body, false);
    let n = run_len(body, false) as int;
    if forall|k: int| 0 <= k < body.len() ==> #[trigger] body[k] != 0 {
        if n < body.len() {
            assert(body[n] != 0);
        }
        assert(name_field(body) =~= body);
        assert(after_name(body) =~= Seq::empty());
    } else if 0 <= i < body.len() && body[i] == 0 && (forall|k: int|
        0 <= k < i ==> #[trigger] body[k] != 0) && (forall|k: int|
        i < k < body.len() ==> !stops(#[trigger] body[k], true)) {
        assert(n == i) by {
            if n < i {
                assert(body[n] != 0);
            } else if n > i {
                assert(!stops(body[i], false));
            }
        }
        let rest = body.skip(i + 1);
        assert(after_name(body) == rest);
        run_ends_at_the_first_stop(rest, true);
        let m = run_len(rest, true) as int;
        if m < rest.len() {
            assert(rest[m] == body[i + 1 + m]);
        }
        assert(name_field(body) =~= body.subrange(0, i));
        assert(size_field(body) =~= body.subrange(i + 1, body.len() as int));
    }
}

/// A name of one component whose characters can all be seen, or are spaces, is kept as it is.
pub proof fn printable_names_are_kept(name: Seq<char>)
    requires
        name.len() > 0,
        name != seq!['.'],
        name != seq!['.', '.'],
        forall|i: int|
            0 <= i < name.len() ==> #[trigger] name[i] != '/' && name[i] != '\\' && ' '
                <= name[i] && !('\u{7f}' <= name[i] && name[i] <= '\u{9f}'),
    ensures
        safe(name) == name,
{
    reveal_strlit(".");
    reveal_strlit("..");
    assert("."@ =~= seq!['.']);
    assert(".."@ =~= seq!['.', '.']);
    assert forall|i: int| 0 <= i < name.len() implies !is_separator(name[i]) && !is_control(
        name[i],
    ) by {
        assert(' ' <= name[i]);
        lemma_printable(name[i]);
    }
    safe_name_keeps_plain(name);
}

proof fn lemma_printable(c: char)
    requires
        ' ' <= c,
        !('\u{7f}' <= c && c <= '\u{9f}'),
    ensures
        !is_control(c),
{
}

} // verus!
