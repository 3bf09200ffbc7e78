//! A text reads as one document at most.
use vstd::prelude::*;
use vstd::seq_lib::seq_to_set_is_finite;
use vstd::utf8::char_is_scalar;

use crate::json::{is_digit, is_number_of, is_number_text, JsonView};
use crate::json_grammar::{
    char_reads_as, chars_read_as, core_reads_as, inside, is_blank, is_bracketed, is_code_escape,
    is_member_list, is_surrogate_pair, is_surrounded, listed, lists_names, literal_reads_as,
    name_reads_as, reads_as,
};

verus! {

/// White space.
spec fn is_space(c: char) -> bool {
    c == ' ' || c == '\t' || c == '\n' || c == '\r'
}

/// What stands behind a part, white space aside: nothing, a comma, a colon or a closing
/// bracket.
spec fn is_stop(rest: Seq<char>) -> bool {
    rest.len() == 0 || rest[0] == ',' || rest[0] == ':' || rest[0] == ']' || rest[0] == '}'
}

/// What stands behind a value at once: white space, or what stands behind a part.
spec fn is_follow(rest: Seq<char>) -> bool {
    is_stop(rest) || is_space(rest[0])
}

/// White space ends where something else begins.
proof fn lemma_blank_ends(v: Seq<char>, w: Seq<char>, x: Seq<char>, y: Seq<char>)
    requires
        is_blank(v),
        is_blank(w),
        x.len() == 0 || !is_space(x[0]),
        y.len() == 0 || !is_space(y[0]),
        v + x == w + y,
    ensures
        v == w,
        x == y,
{
    let left = v + x;
    let right = w + y;
    if v.len() < w.len() {
        let k = v.len() as int;
        assert(left[k] == right[k]);
        assert(is_space(w[k]));
        assert(left[k] == x[0]);
    } else if w.len() < v.len() {
        let k = w.len() as int;
        assert(left[k] == right[k]);
        assert(is_space(v[k]));
        assert(right[k] == y[0]);
    } else {
        assert(left.take(v.len() as int) =~= v);
        assert(right.take(w.len() as int) =~= w);
        assert(left.skip(v.len() as int) =~= x);
        assert(right.skip(w.len() as int) =~= y);
    }
}

/// Texts that begin alike and are equally long are equal, and so is what follows.
proof fn lemma_same_length(p: Seq<char>, q: Seq<char>, x: Seq<char>, y: Seq<char>)
    requires
        p.len() == q.len(),
        p + x == q + y,
    ensures
        p == q,
        x == y,
{
    let n = p.len() as int;
    assert((p + x).take(n) =~= p);
    assert((q + y).take(n) =~= q);
    assert((p + x).skip(n) =~= x);
    assert((q + y).skip(n) =~= y);
}

/// The code of an escape is read from its digits.
proof fn lemma_code_unique(text: Seq<char>, at: int, code: int, other: int)
    requires
        0 <= at,
        is_code_escape(text, at, code),
        is_code_escape(text, at, other),
    ensures
        code == other,
{
}

/// How long a piece of a string literal is, by its beginning.
spec fn piece_shape(p: Seq<char>) -> bool {
    ||| p.len() == 1 && p[0] != '\\' && p[0] != '"'
    ||| p.len() == 2 && p[0] == '\\' && p[1] != 'u'
    ||| p.len() == 6 && p[0] == '\\' && p[1] == 'u'
    ||| p.len() == 12 && p[0] == '\\' && p[1] == 'u'
}

proof fn lemma_piece_shape(p: Seq<char>, c: char)
    requires
        char_reads_as(p, c),
    ensures
        piece_shape(p),
{
}

/// The code that a piece with a code escape begins with is a surrogate exactly where the
/// piece has two of them.
proof fn lemma_first_code(p: Seq<char>, c: char) -> (code: int)
    requires
        char_reads_as(p, c),
        p.len() == 6 || p.len() == 12,
    ensures
        is_code_escape(p, 0, code),
        (0xD800 <= code <= 0xDFFF) <==> p.len() == 12,
        p.len() == 6 ==> c as u32 == code,
{
    if p.len() == 6 {
        char_is_scalar(c);
        c as u32 as int
    } else {
        let (high, low) = choose|high: int, low: int| is_surrogate_pair(p, high, low, c);
        high
    }
}

/// One piece of a string literal is not the beginning of another.
proof fn lemma_piece_unique(
    p: Seq<char>,
    c: char,
    q: Seq<char>,
    d: char,
    x: Seq<char>,
    y: Seq<char>,
)
    requires
        char_reads_as(p, c),
        char_reads_as(q, d),
        p + x == q + y,
    ensures
        p == q,
        c == d,
        x == y,
{
    let left = p + x;
    let right = q + y;
    lemma_piece_shape(p, c);
    lemma_piece_shape(q, d);
    assert(left[0] == p[0] && right[0] == q[0]);
    if p.len() > 1 {
        assert(left[1] == p[1]);
    }
    if q.len() > 1 {
        assert(right[1] == q[1]);
    }
    if p.len() >= 6 && q.len() >= 6 {
        let m = lemma_first_code(p, c);
        let n = lemma_first_code(q, d);
        assert forall|i: int| 0 <= i < 6 implies p[i] == q[i] by {
            assert(left[i] == p[i] && right[i] == q[i]);
        }
        assert(m == n);
    }
    assert(p.len() == q.len());
    lemma_same_length(p, q, x, y);
    if p.len() == 6 {
        assert(c as u32 == d as u32);
    } else if p.len() == 12 {
        let (high, low) = choose|high: int, low: int| is_surrogate_pair(p, high, low, c);
        let (other_high, other_low) = choose|high: int, low: int|
            is_surrogate_pair(q, high, low, d);
        lemma_code_unique(p, 0, high, other_high);
        lemma_code_unique(p, 6, low, other_low);
        assert(c as u32 == d as u32);
    }
}

/// Where the piece of the first character of a text ends.
proof fn lemma_first_piece(a: Seq<char>, s: Seq<char>) -> (k: int)
    requires
        chars_read_as(a, s),
        s.len() > 0,
    ensures
        0 < k <= a.len(),
        char_reads_as(a.take(k), s[0]),
        chars_read_as(a.skip(k), s.drop_first()),
        a == a.take(k) + a.skip(k),
        a[0] != '"',
{
    let k = choose|k: int|
        0 < k <= a.len() && char_reads_as(a.take(k), s[0]) && chars_read_as(
            #[trigger] a.skip(k),
            s.drop_first(),
        );
    lemma_piece_shape(a.take(k), s[0]);
    assert(a.take(k)[0] == a[0]);
    assert(a =~= a.take(k) + a.skip(k));
    k
}

/// The pieces of the first characters of two texts, where the literals go on alike.
proof fn lemma_pieces_unique(
    a: Seq<char>,
    j: int,
    c: char,
    b: Seq<char>,
    k: int,
    d: char,
    u: Seq<char>,
    v: Seq<char>,
)
    requires
        0 < j <= a.len(),
        0 < k <= b.len(),
        char_reads_as(a.take(j), c),
        char_reads_as(b.take(k), d),
        a + u == b + v,
    ensures
        a.take(j) == b.take(k),
        c == d,
        a.skip(j) + u == b.skip(k) + v,
{
    assert(a + u =~= a.take(j) + (a.skip(j) + u));
    assert(b + v =~= b.take(k) + (b.skip(k) + v));
    lemma_piece_unique(a.take(j), c, b.take(k), d, a.skip(j) + u, b.skip(k) + v);
}

/// A string literal shows its text and where it ends.
proof fn lemma_chars_unique(
    a: Seq<char>,
    s: Seq<char>,
    b: Seq<char>,
    t: Seq<char>,
    x: Seq<char>,
    y: Seq<char>,
)
    requires
        chars_read_as(a, s),
        chars_read_as(b, t),
        a + (seq!['"'] + x) == b + (seq!['"'] + y),
    ensures
        a == b,
        s == t,
        x == y,
    decreases s.len() + t.len(),
{
    let u = seq!['"'] + x;
    let v = seq!['"'] + y;
    assert(u[0] == '"' && v[0] == '"');
    if s.len() > 0 && t.len() > 0 {
        let j = lemma_first_piece(a, s);
        let k = lemma_first_piece(b, t);
        lemma_pieces_unique(a, j, s[0], b, k, t[0], u, v);
        lemma_chars_unique(a.skip(j), s.drop_first(), b.skip(k), t.drop_first(), x, y);
        assert(s =~= seq![s[0]] + s.drop_first());
        assert(t =~= seq![t[0]] + t.drop_first());
    } else if s.len() > 0 {
        lemma_first_piece(a, s);
        assert((a + u)[0] == a[0]);
        assert((b + v)[0] == v[0]);
    } else if t.len() > 0 {
        lemma_first_piece(b, t);
        assert((b + v)[0] == b[0]);
        assert((a + u)[0] == u[0]);
    } else {
        assert(a =~= b);
        assert(s =~= t);
        assert(a + u =~= u);
        assert(b + v =~= v);
        lemma_same_length(seq!['"'], seq!['"'], x, y);
    }
}

proof fn lemma_literal_unique(
    l: Seq<char>,
    s: Seq<char>,
    m: Seq<char>,
    t: Seq<char>,
    x: Seq<char>,
    y: Seq<char>,
)
    requires
        literal_reads_as(l, s),
        literal_reads_as(m, t),
        l + x == m + y,
    ensures
        l == m,
        s == t,
        x == y,
{
    let a = inside(l);
    let b = inside(m);
    assert((l + x).skip(1) =~= a + (seq!['"'] + x));
    assert((m + y).skip(1) =~= b + (seq!['"'] + y));
    lemma_chars_unique(a, s, b, t, x, y);
    assert(l =~= seq!['"'] + a + seq!['"']);
    assert(m =~= seq!['"'] + b + seq!['"']);
}

/// A character that can stand in a number.
pub open spec fn is_number_char(c: char) -> bool {
    is_digit(c) || c == '-' || c == '+' || c == '.' || c == 'e' || c == 'E'
}

/// A number begins with a digit or a minus sign, and goes on with characters of numbers.
pub proof fn lemma_number_chars(text: Seq<char>)
    requires
        is_number_text(text),
    ensures
        text.len() > 0,
        text[0] == '-' || is_digit(text[0]),
        forall|i: int| 0 <= i < text.len() ==> is_number_char(#[trigger] text[i]),
{
    let (sign, whole, fraction, exponent) = choose|
        sign: Seq<char>,
        whole: Seq<char>,
        fraction: Seq<char>,
        exponent: Seq<char>,
    | #[trigger]
        is_number_of(text, sign, whole, fraction, exponent);
    assert(is_digit(whole[0]));
    assert forall|i: int| 0 <= i < text.len() implies is_number_char(#[trigger] text[i]) by {
        let a = sign.len() as int;
        let b = a + whole.len();
        let c = b + fraction.len();
        if a <= i < b {
            assert(is_digit(whole[i - a]));
        } else if b < i < c {
            assert(is_digit(fraction.skip(1)[i - b - 1]));
        } else if c + 1 < i {
            let k = i - c;
            if exponent[1] == '+' || exponent[1] == '-' {
                assert(is_digit(exponent.skip(2)[k - 2]));
            } else {
                assert(is_digit(exponent.skip(1)[k - 1]));
            }
        } else if c + 1 == i {
            if !(exponent[1] == '+' || exponent[1] == '-') {
                assert(is_digit(exponent.skip(1)[0]));
            }
        }
    }
}

/// A number ends where its characters end.
proof fn lemma_number_unique(p: Seq<char>, q: Seq<char>, x: Seq<char>, y: Seq<char>)
    requires
        is_number_text(p),
        is_number_text(q),
        is_follow(x),
        is_follow(y),
        p + x == q + y,
    ensures
        p == q,
        x == y,
{
    let left = p + x;
    let right = q + y;
    lemma_number_chars(p);
    lemma_number_chars(q);
    if p.len() < q.len() {
        let k = p.len() as int;
        assert(left[k] == right[k]);
        assert(is_number_char(q[k]));
        assert(left[k] == x[0]);
    } else if q.len() < p.len() {
        let k = q.len() as int;
        assert(left[k] == right[k]);
        assert(is_number_char(p[k]));
        assert(right[k] == y[0]);
    } else {
        lemma_same_length(p, q, x, y);
    }
}

/// The first character of a text that reads as a document.
spec fn starts_as(document: JsonView, c: char) -> bool {
    match document {
        JsonView::Null => c == 'n',
        JsonView::Bool(b) => c == if b {
            't'
        } else {
            'f'
        },
        JsonView::Number(_) => c == '-' || is_digit(c),
        JsonView::Text(_) => c == '"',
        JsonView::Array(_) => c == '[',
        JsonView::Object(_) => c == '{',
    }
}

proof fn lemma_start(core: Seq<char>, document: JsonView)
    requires
        core_reads_as(core, document),
    ensures
        core.len() > 0,
        starts_as(document, core[0]),
{
    if document is Number {
        lemma_number_chars(core);
    }
}

/// A core that begins with something else than white space shows where it begins.
proof fn lemma_core_begins(
    before: Seq<char>,
    core: Seq<char>,
    after: Seq<char>,
    r: Seq<char>,
    other_before: Seq<char>,
    other_rest: Seq<char>,
)
    requires
        is_blank(before),
        is_blank(other_before),
        core.len() > 0,
        !is_space(core[0]),
        other_rest.len() == 0 || !is_space(other_rest[0]),
        (before + core + after) + r == other_before + other_rest,
    ensures
        before == other_before,
        core + (after + r) == other_rest,
{
    assert((before + core + after) + r =~= before + (core + (after + r)));
    assert((core + (after + r))[0] == core[0]);
    lemma_blank_ends(before, other_before, core + (after + r), other_rest);
}

proof fn lemma_follows(after: Seq<char>, r: Seq<char>)
    requires
        is_blank(after),
        is_stop(r),
    ensures
        is_follow(after + r),
{
    if after.len() > 0 {
        assert((after + r)[0] == after[0]);
    } else {
        assert(after + r =~= r);
    }
}

proof fn lemma_reads_unique(
    t: Seq<char>,
    a: JsonView,
    w: Seq<char>,
    b: JsonView,
    x: Seq<char>,
    y: Seq<char>,
)
    requires
        reads_as(t, a),
        reads_as(w, b),
        is_stop(x),
        is_stop(y),
        t + x == w + y,
    ensures
        t == w,
        a == b,
        x == y,
    decreases a, 2int,
{
    let (before, core, after) = choose|before: Seq<char>, core: Seq<char>, after: Seq<char>|
        #[trigger] is_surrounded(t, before, core, after) && core_reads_as(core, a);
    let (before2, core2, after2) = choose|before: Seq<char>, core: Seq<char>, after: Seq<char>|
        #[trigger] is_surrounded(w, before, core, after) && core_reads_as(core, b);
    lemma_start(core, a);
    lemma_start(core2, b);
    let rest2 = core2 + (after2 + y);
    assert(w + y =~= before2 + rest2);
    assert(rest2[0] == core2[0]);
    lemma_core_begins(before, core, after, x, before2, rest2);
    lemma_follows(after, x);
    lemma_follows(after2, y);
    lemma_core_unique(core, a, core2, b, after + x, after2 + y);
    lemma_blank_ends(after, after2, x, y);
}

proof fn lemma_core_unique(
    t: Seq<char>,
    a: JsonView,
    w: Seq<char>,
    b: JsonView,
    x: Seq<char>,
    y: Seq<char>,
)
    requires
        core_reads_as(t, a),
        core_reads_as(w, b),
        is_follow(x),
        is_follow(y),
        t + x == w + y,
    ensures
        t == w,
        a == b,
        x == y,
    decreases a, 1int,
{
    lemma_start(t, a);
    lemma_start(w, b);
    assert((t + x)[0] == t[0]);
    assert((w + y)[0] == w[0]);
    match (a, b) {
        (JsonView::Null, JsonView::Null) => lemma_same_length(t, w, x, y),
        (JsonView::Bool(_), JsonView::Bool(_)) => lemma_same_length(t, w, x, y),
        (JsonView::Number(_), JsonView::Number(_)) => lemma_number_unique(t, w, x, y),
        (JsonView::Text(p), JsonView::Text(q)) => lemma_literal_unique(t, p, w, q, x, y),
        (JsonView::Array(p), JsonView::Array(q)) => {
            lemma_array_unique(t, p, w, q, x, y);
        },
        (JsonView::Object(p), JsonView::Object(q)) => {
            lemma_object_unique(t, p, w, q, x, y);
        },
        _ => {},
    }
}

/// What stands behind the part of a list: the next part or the end.
spec fn list_rest(parts: Seq<Seq<char>>, close: char, x: Seq<char>) -> Seq<char> {
    if parts.len() > 1 {
        seq![','] + (listed(parts.drop_first()) + (seq![close] + x))
    } else {
        seq![close] + x
    }
}

proof fn lemma_list_apart(parts: Seq<Seq<char>>, close: char, x: Seq<char>)
    requires
        parts.len() > 0,
    ensures
        listed(parts) + (seq![close] + x) == parts[0] + list_rest(parts, close, x),
{
    assert(listed(parts) + (seq![close] + x) =~= parts[0] + list_rest(parts, close, x));
}

/// Brackets, taken apart from what they hold and what follows.
proof fn lemma_brackets_apart(t: Seq<char>, open: char, close: char, x: Seq<char>)
    requires
        is_bracketed(t, open, close),
    ensures
        t == seq![open] + inside(t) + seq![close],
        (t + x).skip(1) == inside(t) + (seq![close] + x),
{
    assert(t =~= seq![open] + inside(t) + seq![close]);
    assert((t + x).skip(1) =~= inside(t) + (seq![close] + x));
}

/// An empty list is not a list of documents.
proof fn lemma_blank_is_no_item(
    blank: Seq<char>,
    part: Seq<char>,
    document: JsonView,
    close: char,
    x: Seq<char>,
    r: Seq<char>,
)
    requires
        is_blank(blank),
        reads_as(part, document),
        close == ']' || close == '}',
    ensures
        blank + (seq![close] + x) != part + r,
{
    let (before, core, after) = choose|before: Seq<char>, core: Seq<char>, after: Seq<char>|
        #[trigger] is_surrounded(part, before, core, after) && core_reads_as(core, document);
    lemma_start(core, document);
    assert((seq![close] + x)[0] == close);
    assert((core + (after + r))[0] == core[0]);
    if blank + (seq![close] + x) == part + r {
        lemma_core_begins(before, core, after, r, blank, seq![close] + x);
    }
}

proof fn lemma_array_unique(
    t: Seq<char>,
    p: Seq<JsonView>,
    w: Seq<char>,
    q: Seq<JsonView>,
    x: Seq<char>,
    y: Seq<char>,
)
    requires
        core_reads_as(t, JsonView::Array(p)),
        core_reads_as(w, JsonView::Array(q)),
        t + x == w + y,
    ensures
        t == w,
        p == q,
        x == y,
    decreases JsonView::Array(p), 0int,
{
    lemma_brackets_apart(t, '[', ']', x);
    lemma_brackets_apart(w, '[', ']', y);
    let left = inside(t);
    let right = inside(w);
    let parts = choose|parts: Seq<Seq<char>>|
        left == #[trigger] listed(parts) && parts.len() == p.len() && forall|i: int|
            0 <= i < p.len() ==> reads_as(parts[i], #[trigger] p[i]);
    let parts2 = choose|parts: Seq<Seq<char>>|
        right == #[trigger] listed(parts) && parts.len() == q.len() && forall|i: int|
            0 <= i < q.len() ==> reads_as(parts[i], #[trigger] q[i]);
    if p.len() == 0 && q.len() == 0 {
        assert((seq![']'] + x)[0] == ']' && (seq![']'] + y)[0] == ']');
        lemma_blank_ends(left, right, seq![']'] + x, seq![']'] + y);
        lemma_same_length(seq![']'], seq![']'], x, y);
        assert(p =~= q);
    } else if p.len() == 0 {
        lemma_list_apart(parts2, ']', y);
        assert(reads_as(parts2[0], q[0]));
        lemma_blank_is_no_item(left, parts2[0], q[0], ']', x, list_rest(parts2, ']', y));
    } else if q.len() == 0 {
        lemma_list_apart(parts, ']', x);
        assert(reads_as(parts[0], p[0]));
        lemma_blank_is_no_item(right, parts[0], p[0], ']', y, list_rest(parts, ']', x));
    } else {
        assert(parts.skip(0) =~= parts);
        assert(parts2.skip(0) =~= parts2);
        lemma_items_unique(p, parts, q, parts2, 0, x, y);
        assert(p =~= q);
        assert(parts =~= parts2);
    }
}

proof fn lemma_items_unique(
    p: Seq<JsonView>,
    parts: Seq<Seq<char>>,
    q: Seq<JsonView>,
    parts2: Seq<Seq<char>>,
    i: int,
    x: Seq<char>,
    y: Seq<char>,
)
    requires
        0 <= i < p.len(),
        i < q.len(),
        parts.len() == p.len(),
        parts2.len() == q.len(),
        forall|k: int| 0 <= k < p.len() ==> reads_as(parts[k], #[trigger] p[k]),
        forall|k: int| 0 <= k < q.len() ==> reads_as(parts2[k], #[trigger] q[k]),
        listed(parts.skip(i)) + (seq![']'] + x) == listed(parts2.skip(i)) + (seq![']'] + y),
    ensures
        p.len() == q.len(),
        forall|k: int| i <= k < p.len() ==> p[k] == q[k] && parts[k] == parts2[k],
        x == y,
    decreases p, p.len() - i,
{
    let u = list_rest(parts.skip(i), ']', x);
    let v = list_rest(parts2.skip(i), ']', y);
    lemma_list_apart(parts.skip(i), ']', x);
    lemma_list_apart(parts2.skip(i), ']', y);
    assert(reads_as(parts[i], p[i]) && reads_as(parts2[i], q[i]));
    lemma_reads_unique(parts[i], p[i], parts2[i], q[i], u, v);
    if i + 1 < p.len() && i + 1 < q.len() {
        assert(parts.skip(i).drop_first() =~= parts.skip(i + 1));
        assert(parts2.skip(i).drop_first() =~= parts2.skip(i + 1));
        lemma_same_length(
            seq![','],
            seq![','],
            listed(parts.skip(i + 1)) + (seq![']'] + x),
            listed(parts2.skip(i + 1)) + (seq![']'] + y),
        );
        lemma_items_unique(p, parts, q, parts2, i + 1, x, y);
    } else {
        assert(u[0] == v[0]);
        lemma_same_length(seq![']'], seq![']'], x, y);
    }
}

/// A set whose members are listed is finite.
proof fn lemma_listed_is_finite(names: Seq<Seq<char>>, all: Set<Seq<char>>)
    requires
        lists_names(names, all),
    ensures
        all.finite(),
        forall|i: int| 0 <= i < names.len() ==> all.contains(#[trigger] names[i]),
{
    seq_to_set_is_finite(names);
    assert(all =~= names.to_set());
    assert forall|i: int| 0 <= i < names.len() implies all.contains(#[trigger] names[i]) by {
        assert(names.contains(names[i]));
    }
}

/// The text of a member.
spec fn member_parts(keys: Seq<Seq<char>>, values: Seq<Seq<char>>, n: nat) -> Seq<Seq<char>> {
    Seq::new(n, |i: int| keys[i] + seq![':'] + values[i])
}

/// What an object reads from: its names, and how they and their values are written.
spec fn reads_members(
    text: Seq<char>,
    members: Map<Seq<char>, JsonView>,
    names: Seq<Seq<char>>,
    keys: Seq<Seq<char>>,
    values: Seq<Seq<char>>,
) -> bool {
    &&& is_member_list(text, names, keys, values)
    &&& lists_names(names, members.dom())
    &&& forall|i: int|
        0 <= i < names.len() && members.dom().finite() && members.dom().contains(names[i])
            ==> reads_as(values[i], members[#[trigger] names[i]])
}

/// A name is written from its quote on.
proof fn lemma_name_unique(
    k: Seq<char>,
    s: Seq<char>,
    l: Seq<char>,
    t: Seq<char>,
    x: Seq<char>,
    y: Seq<char>,
)
    requires
        name_reads_as(k, s),
        name_reads_as(l, t),
        k + (seq![':'] + x) == l + (seq![':'] + y),
    ensures
        k == l,
        s == t,
        x == y,
{
    let (before, core, after) = choose|before: Seq<char>, core: Seq<char>, after: Seq<char>|
        #[trigger] is_surrounded(k, before, core, after) && literal_reads_as(core, s);
    let (before2, core2, after2) = choose|before: Seq<char>, core: Seq<char>, after: Seq<char>|
        #[trigger] is_surrounded(l, before, core, after) && literal_reads_as(core, t);
    let u = seq![':'] + x;
    let v = seq![':'] + y;
    let rest2 = core2 + (after2 + v);
    assert(l + v =~= before2 + rest2);
    assert(rest2[0] == core2[0]);
    lemma_core_begins(before, core, after, u, before2, rest2);
    lemma_literal_unique(core, s, core2, t, after + u, after2 + v);
    assert(u[0] == ':' && v[0] == ':');
    lemma_blank_ends(after, after2, u, v);
    lemma_same_length(seq![':'], seq![':'], x, y);
}

/// An empty object has no member.
proof fn lemma_blank_is_no_name(
    blank: Seq<char>,
    key: Seq<char>,
    name: Seq<char>,
    x: Seq<char>,
    r: Seq<char>,
)
    requires
        is_blank(blank),
        name_reads_as(key, name),
    ensures
        blank + (seq!['}'] + x) != key + r,
{
    let (before, core, after) = choose|before: Seq<char>, core: Seq<char>, after: Seq<char>|
        #[trigger] is_surrounded(key, before, core, after) && literal_reads_as(core, name);
    assert((seq!['}'] + x)[0] == '}');
    assert((core + (after + r))[0] == core[0]);
    if blank + (seq!['}'] + x) == key + r {
        lemma_core_begins(before, core, after, r, blank, seq!['}'] + x);
    }
}

/// The first member of an object, taken apart.
proof fn lemma_member_apart(
    keys: Seq<Seq<char>>,
    values: Seq<Seq<char>>,
    n: nat,
    i: int,
    x: Seq<char>,
)
    requires
        0 <= i < n,
    ensures
        listed(member_parts(keys, values, n).skip(i)) + (seq!['}'] + x) == keys[i] + (seq![':'] + (
        values[i] + list_rest(member_parts(keys, values, n).skip(i), '}', x))),
{
    let parts = member_parts(keys, values, n).skip(i);
    let rest = list_rest(parts, '}', x);
    lemma_list_apart(parts, '}', x);
    assert(parts[0] + rest =~= keys[i] + (seq![':'] + (values[i] + rest)));
}

proof fn lemma_object_unique(
    t: Seq<char>,
    p: Map<Seq<char>, JsonView>,
    w: Seq<char>,
    q: Map<Seq<char>, JsonView>,
    x: Seq<char>,
    y: Seq<char>,
)
    requires
        core_reads_as(t, JsonView::Object(p)),
        core_reads_as(w, JsonView::Object(q)),
        t + x == w + y,
    ensures
        t == w,
        p == q,
        x == y,
    decreases JsonView::Object(p), 0int,
{
    lemma_brackets_apart(t, '{', '}', x);
    lemma_brackets_apart(w, '{', '}', y);
    let left = inside(t);
    let right = inside(w);
    let none = Set::<Seq<char>>::empty();
    let (m, km, vm) = lemma_object_parts(t, p);
    let (n, kn, vn) = lemma_object_parts(w, q);
    if p.dom() == none && q.dom() == none {
        assert((seq!['}'] + x)[0] == '}' && (seq!['}'] + y)[0] == '}');
        lemma_blank_ends(left, right, seq!['}'] + x, seq!['}'] + y);
        lemma_same_length(seq!['}'], seq!['}'], x, y);
        assert(p =~= q);
    } else if p.dom() == none {
        let parts = member_parts(kn, vn, n.len());
        assert(parts.skip(0) =~= parts);
        lemma_member_apart(kn, vn, n.len(), 0, y);
        assert(name_reads_as(kn[0], n[0]));
        lemma_blank_is_no_name(
            left,
            kn[0],
            n[0],
            x,
            seq![':'] + (vn[0] + list_rest(parts, '}', y)),
        );
    } else if q.dom() == none {
        let parts = member_parts(km, vm, m.len());
        assert(parts.skip(0) =~= parts);
        lemma_member_apart(km, vm, m.len(), 0, x);
        assert(name_reads_as(km[0], m[0]));
        lemma_blank_is_no_name(
            right,
            km[0],
            m[0],
            y,
            seq![':'] + (vm[0] + list_rest(parts, '}', x)),
        );
    } else {
        assert(member_parts(km, vm, m.len()).skip(0) =~= member_parts(km, vm, m.len()));
        assert(member_parts(kn, vn, n.len()).skip(0) =~= member_parts(kn, vn, n.len()));
        lemma_members_unique(p, m, km, vm, q, n, kn, vn, 0, x, y);
        assert(m =~= n);
        assert(km =~= kn);
        assert(vm =~= vn);
        assert(p.dom() =~= q.dom()) by {
            assert forall|name: Seq<char>| p.dom().contains(name) <==> q.dom().contains(name) by {
                assert(m.contains(name) <==> p.dom().contains(name));
                assert(n.contains(name) <==> q.dom().contains(name));
            }
        }
        assert forall|name: Seq<char>| p.dom().contains(name) implies p[name] == q[name] by {
            assert(m.contains(name));
            let i = choose|i: int| 0 <= i < m.len() && m[i] == name;
            assert(p[m[i]] == q[n[i]]);
        }
        assert(p =~= q);
    }
}

/// What an object that is not empty reads from: one member or more.
proof fn lemma_object_parts(text: Seq<char>, members: Map<Seq<char>, JsonView>) -> (r: (
    Seq<Seq<char>>,
    Seq<Seq<char>>,
    Seq<Seq<char>>,
))
    requires
        core_reads_as(text, JsonView::Object(members)),
    ensures
        members.dom() != Set::<Seq<char>>::empty() ==> {
            &&& reads_members(inside(text), members, r.0, r.1, r.2)
            &&& r.0.len() > 0
            &&& inside(text) == listed(member_parts(r.1, r.2, r.0.len()))
            &&& members.dom().finite()
            &&& forall|i: int| 0 <= i < r.0.len() ==> members.dom().contains(#[trigger] r.0[i])
        },
{
    let (names, keys, values) = choose|
        names: Seq<Seq<char>>,
        keys: Seq<Seq<char>>,
        values: Seq<Seq<char>>,
    | #[trigger]
        is_member_list(inside(text), names, keys, values) && lists_names(names, members.dom())
            && forall|i: int|
            0 <= i < names.len() && members.dom().finite() && members.dom().contains(names[i])
                ==> reads_as(values[i], members[#[trigger] names[i]]);
    if members.dom() != Set::<Seq<char>>::empty() {
        assert(reads_members(inside(text), members, names, keys, values));
        lemma_listed_is_finite(names, members.dom());
        if names.len() == 0 {
            assert forall|name: Seq<char>| !members.dom().contains(name) by {
                assert(!names.contains(name));
            }
            assert(members.dom() =~= Set::<Seq<char>>::empty());
        }
        assert(member_parts(keys, values, names.len()) =~= Seq::new(
            names.len(),
            |i: int| keys[i] + seq![':'] + values[i],
        ));
    }
    (names, keys, values)
}

proof fn lemma_members_unique(
    p: Map<Seq<char>, JsonView>,
    m: Seq<Seq<char>>,
    km: Seq<Seq<char>>,
    vm: Seq<Seq<char>>,
    q: Map<Seq<char>, JsonView>,
    n: Seq<Seq<char>>,
    kn: Seq<Seq<char>>,
    vn: Seq<Seq<char>>,
    i: int,
    x: Seq<char>,
    y: Seq<char>,
)
    requires
        0 <= i < m.len(),
        i < n.len(),
        km.len() == m.len(),
        vm.len() == m.len(),
        kn.len() == n.len(),
        vn.len() == n.len(),
        p.dom().finite(),
        forall|k: int| 0 <= k < m.len() ==> p.dom().contains(#[trigger] m[k]),
        forall|k: int| 0 <= k < m.len() ==> name_reads_as(km[k], #[trigger] m[k]),
        forall|k: int| 0 <= k < m.len() ==> reads_as(vm[k], p[#[trigger] m[k]]),
        forall|k: int| 0 <= k < n.len() ==> name_reads_as(kn[k], #[trigger] n[k]),
        forall|k: int| 0 <= k < n.len() ==> reads_as(vn[k], q[#[trigger] n[k]]),
        listed(member_parts(km, vm, m.len()).skip(i)) + (seq!['}'] + x) == listed(
            member_parts(kn, vn, n.len()).skip(i),
        ) + (seq!['}'] + y),
    ensures
        m.len() == n.len(),
        forall|k: int|
            i <= k < m.len() ==> m[k] == n[k] && km[k] == kn[k] && vm[k] == vn[k] && p[m[k]]
                == q[n[k]],
        x == y,
    decreases p, m.len() - i,
{
    let parts = member_parts(km, vm, m.len());
    let parts2 = member_parts(kn, vn, n.len());
    let u = list_rest(parts.skip(i), '}', x);
    let v = list_rest(parts2.skip(i), '}', y);
    lemma_member_apart(km, vm, m.len(), i, x);
    lemma_member_apart(kn, vn, n.len(), i, y);
    assert(name_reads_as(km[i], m[i]) && name_reads_as(kn[i], n[i]));
    lemma_name_unique(km[i], m[i], kn[i], n[i], vm[i] + u, vn[i] + v);
    assert(reads_as(vm[i], p[m[i]]) && reads_as(vn[i], q[n[i]]));
    lemma_reads_unique(vm[i], p[m[i]], vn[i], q[n[i]], u, v);
    if i + 1 < m.len() && i + 1 < n.len() {
        assert(parts.skip(i).drop_first() =~= parts.skip(i + 1));
        assert(parts2.skip(i).drop_first() =~= parts2.skip(i + 1));
        lemma_same_length(
            seq![','],
            seq![','],
            listed(parts.skip(i + 1)) + (seq!['}'] + x),
            listed(parts2.skip(i + 1)) + (seq!['}'] + y),
        );
        lemma_members_unique(p, m, km, vm, q, n, kn, vn, i + 1, x, y);
    } else {
        assert(u[0] == v[0]);
        lemma_same_length(seq!['}'], seq!['}'], x, y);
    }
}

/// A text reads as one document at most.
pub proof fn text_reads_as_one_document(text: Seq<char>, a: JsonView, b: JsonView)
    requires
        reads_as(text, a),
        reads_as(text, b),
    ensures
        a == b,
{
    lemma_reads_unique(text, a, text, b, Seq::empty(), Seq::empty());
}

} // verus!
