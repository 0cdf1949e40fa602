//! The canonical texts of steps and identities are unambiguous: a text in which
//! they follow one another can be taken apart in one way only. So a digest stands
//! for one plan and its bindings.

use crate::digest::{hex_text, sha256_bytes};
use crate::json::{
    json_escape, json_escapes, json_member, json_members, json_object_text, json_text, json_value,
    ValueView,
};
use crate::plan::{
    digest_input, identity_text, sealed, step_json, step_members, Identity, StepView,
};
use crate::text::{decimal_text, hex_char, is_digit, lemma_decimal_digits};
use vstd::prelude::*;
use vstd::utf8::{encode_utf8, encode_utf8_decode_utf8};

verus! {

/// What follows the same start is the same.
proof fn lemma_cancel<T>(start: Seq<T>, x: Seq<T>, y: Seq<T>)
    requires
        start + x == start + y,
    ensures
        x == y,
{
    assert((start + x).skip(start.len() as int) =~= x);
    assert((start + y).skip(start.len() as int) =~= y);
}

proof fn lemma_hex_chars(a: int, b: int)
    requires
        0 <= a < 16,
        0 <= b < 16,
        hex_char(a) == hex_char(b),
    ensures
        a == b,
{
    assert(a < 10 ==> hex_char(a) as int == '0' as int + a);
    assert(b < 10 ==> hex_char(b) as int == '0' as int + b);
    assert(a >= 10 ==> hex_char(a) as int == 'a' as int + a - 10);
    assert(b >= 10 ==> hex_char(b) as int == 'a' as int + b - 10);
}

/// One escaped character, whatever follows it.
proof fn lemma_escape_ends(a: char, b: char, x: Seq<char>, y: Seq<char>)
    requires
        json_escape(a) + x == json_escape(b) + y,
    ensures
        a == b,
        x == y,
{
    let s = json_escape(a) + x;
    let ea = json_escape(a);
    let eb = json_escape(b);
    assert(s[0] == ea[0] && s[0] == eb[0]);
    if ea.len() > 1 && eb.len() > 1 {
        assert(s[1] == ea[1] && s[1] == eb[1]);
        if ea.len() == 6 && eb.len() == 6 {
            assert(s[4] == ea[4] && s[4] == eb[4]);
            assert(s[5] == ea[5] && s[5] == eb[5]);
            lemma_hex_chars(a as int / 16, b as int / 16);
            lemma_hex_chars(a as int % 16, b as int % 16);
            assert(a as int == b as int);
        }
    }
    assert(a == b);
    lemma_cancel(ea, x, y);
}

/// The first character of a text is escaped first.
proof fn lemma_escapes_front(s: Seq<char>)
    requires
        s.len() > 0,
    ensures
        json_escapes(s) == json_escape(s[0]) + json_escapes(s.skip(1)),
    decreases s.len(),
{
    let rest = s.skip(1);
    if s.len() == 1 {
        assert(json_escapes(s.drop_last()) =~= seq![]);
        assert(json_escapes(rest) =~= seq![]);
        assert(json_escapes(s) =~= json_escape(s[0]) + json_escapes(rest));
    } else {
        lemma_escapes_front(s.drop_last());
        assert(s.drop_last().skip(1) =~= rest.drop_last());
        assert(s.last() == rest.last());
        assert(json_escapes(s) =~= json_escape(s[0]) + json_escapes(rest));
    }
}

proof fn lemma_escapes_end(a: Seq<char>, b: Seq<char>, x: Seq<char>, y: Seq<char>)
    requires
        json_escapes(a) + (seq!['"'] + x) == json_escapes(b) + (seq!['"'] + y),
    ensures
        a == b,
        x == y,
    decreases a.len(),
{
    let tx = seq!['"'] + x;
    let ty = seq!['"'] + y;
    let s = json_escapes(a) + tx;
    if a.len() > 0 {
        lemma_escapes_front(a);
        assert(s =~= json_escape(a[0]) + (json_escapes(a.skip(1)) + tx));
        assert(s[0] == json_escape(a[0])[0]);
        assert(s[0] != '"');
    } else {
        assert(s =~= tx);
    }
    if b.len() > 0 {
        lemma_escapes_front(b);
        assert(s =~= json_escape(b[0]) + (json_escapes(b.skip(1)) + ty));
        assert(s[0] == json_escape(b[0])[0]);
        assert(s[0] != '"');
    } else {
        assert(s =~= ty);
    }
    if a.len() > 0 {
        assert(b.len() > 0) by {
            if b.len() == 0 {
                assert(ty[0] == '"');
            }
        }
        lemma_escape_ends(
            a[0],
            b[0],
            json_escapes(a.skip(1)) + tx,
            json_escapes(b.skip(1)) + ty,
        );
        lemma_escapes_end(a.skip(1), b.skip(1), x, y);
        assert(a =~= seq![a[0]] + a.skip(1));
        assert(b =~= seq![b[0]] + b.skip(1));
    } else {
        assert(tx[0] == '"');
        assert(b.len() == 0);
        assert(a =~= b);
        lemma_cancel(seq!['"'], x, y);
    }
}

/// A JSON string ends where it ends, whatever follows it.
pub proof fn json_text_ends(a: Seq<char>, b: Seq<char>, x: Seq<char>, y: Seq<char>)
    requires
        json_text(a) + x == json_text(b) + y,
    ensures
        a == b,
        x == y,
{
    let ta = json_escapes(a) + (seq!['"'] + x);
    let tb = json_escapes(b) + (seq!['"'] + y);
    assert(json_text(a) + x =~= seq!['"'] + ta);
    assert(json_text(b) + y =~= seq!['"'] + tb);
    lemma_cancel(seq!['"'], ta, tb);
    lemma_escapes_end(a, b, x, y);
}

/// A text that does not go on with a digit.
pub open spec fn no_digit_first(s: Seq<char>) -> bool {
    s.len() > 0 && !is_digit(s[0])
}

/// A number in decimal ends where it ends, unless a digit follows it.
pub proof fn decimal_ends(m: nat, n: nat, x: Seq<char>, y: Seq<char>)
    requires
        decimal_text(m) + x == decimal_text(n) + y,
        no_digit_first(x),
        no_digit_first(y),
    ensures
        m == n,
        x == y,
{
    let a = decimal_text(m);
    let b = decimal_text(n);
    let s = a + x;
    lemma_decimal_digits(m);
    lemma_decimal_digits(n);
    if a.len() < b.len() {
        assert(s[a.len() as int] == x[0]);
        assert(s[a.len() as int] == b[a.len() as int]);
    }
    if b.len() < a.len() {
        assert(s[b.len() as int] == y[0]);
        assert(s[b.len() as int] == a[b.len() as int]);
    }
    assert(s.take(a.len() as int) =~= a);
    assert(s.take(b.len() as int) =~= b);
    lemma_cancel(a, x, y);
}

proof fn lemma_value_ends(v: ValueView, w: ValueView, x: Seq<char>, y: Seq<char>)
    requires
        json_value(v) + x == json_value(w) + y,
        no_digit_first(x),
        no_digit_first(y),
    ensures
        v == w,
        x == y,
{
    reveal_strlit("null");
    let s = json_value(v) + x;
    lemma_value_starts(v);
    lemma_value_starts(w);
    assert(s[0] == json_value(v)[0]);
    assert(s[0] == json_value(w)[0]);
    match (v, w) {
        (ValueView::Text(a), ValueView::Text(b)) => json_text_ends(a, b, x, y),
        (ValueView::Number(m), ValueView::Number(n)) => decimal_ends(m as nat, n as nat, x, y),
        (ValueView::Null, ValueView::Null) => lemma_cancel("null"@, x, y),
        _ => {},
    }
}

/// How a value starts tells its kind.
proof fn lemma_value_starts(v: ValueView)
    ensures
        json_value(v).len() > 0,
        v is Text <==> json_value(v)[0] == '"',
        v is Number <==> is_digit(json_value(v)[0]),
{
    reveal_strlit("null");
    match v {
        ValueView::Text(s) => {
            assert(json_value(v)[0] == '"');
        },
        ValueView::Number(n) => {
            lemma_decimal_digits(n as nat);
            assert(is_digit(decimal_text(n as nat)[0]));
        },
        ValueView::Null => {
            assert(json_value(v)[0] == 'n');
        },
    }
}

proof fn lemma_member_ends(
    m: (Seq<char>, ValueView),
    n: (Seq<char>, ValueView),
    x: Seq<char>,
    y: Seq<char>,
)
    requires
        json_member(m) + x == json_member(n) + y,
        no_digit_first(x),
        no_digit_first(y),
    ensures
        m == n,
        x == y,
{
    let vx = json_value(m.1) + x;
    let vy = json_value(n.1) + y;
    assert(json_member(m) + x =~= json_text(m.0) + (seq![':'] + vx));
    assert(json_member(n) + y =~= json_text(n.0) + (seq![':'] + vy));
    json_text_ends(m.0, n.0, seq![':'] + vx, seq![':'] + vy);
    lemma_cancel(seq![':'], vx, vy);
    lemma_value_ends(m.1, n.1, x, y);
}

/// Members that follow another, each after a comma.
pub open spec fn more_members(members: Seq<(Seq<char>, ValueView)>) -> Seq<char>
    decreases members.len(),
{
    if members.len() == 0 {
        seq![]
    } else {
        seq![','] + json_member(members[0]) + more_members(members.skip(1))
    }
}

proof fn lemma_more_members_push(
    members: Seq<(Seq<char>, ValueView)>,
    m: (Seq<char>, ValueView),
)
    ensures
        more_members(members.push(m)) == more_members(members) + (seq![','] + json_member(m)),
    decreases members.len(),
{
    let all = members.push(m);
    if members.len() == 0 {
        assert(more_members(all.skip(1)) =~= seq![]);
        assert(more_members(members) =~= seq![]);
        assert(all[0] == m);
        assert(more_members(all) =~= more_members(members) + (seq![','] + json_member(m)));
    } else {
        assert(all.skip(1) =~= members.skip(1).push(m));
        lemma_more_members_push(members.skip(1), m);
        assert(more_members(all) =~= more_members(members) + (seq![','] + json_member(m)));
    }
}

proof fn lemma_members_front(members: Seq<(Seq<char>, ValueView)>)
    requires
        members.len() > 0,
    ensures
        json_members(members) == json_member(members[0]) + more_members(members.skip(1)),
    decreases members.len(),
{
    let rest = members.skip(1);
    if members.len() == 1 {
        assert(json_members(members) =~= json_member(members[0]) + more_members(rest));
    } else {
        lemma_members_front(members.drop_last());
        assert(members.drop_last().skip(1) =~= rest.drop_last());
        assert(rest.drop_last().push(rest.last()) =~= rest);
        assert(rest.last() == members.last());
        lemma_more_members_push(rest.drop_last(), rest.last());
        assert(json_members(members) =~= json_member(members[0]) + more_members(rest));
    }
}

proof fn lemma_more_members_end(
    a: Seq<(Seq<char>, ValueView)>,
    b: Seq<(Seq<char>, ValueView)>,
    x: Seq<char>,
    y: Seq<char>,
)
    requires
        more_members(a) + (seq!['}'] + x) == more_members(b) + (seq!['}'] + y),
    ensures
        a == b,
        x == y,
    decreases a.len(),
{
    let ex = seq!['}'] + x;
    let ey = seq!['}'] + y;
    let s = more_members(a) + ex;
    if a.len() > 0 {
        assert(s =~= seq![','] + (json_member(a[0]) + (more_members(a.skip(1)) + ex)));
        assert(s[0] == ',');
    } else {
        assert(s =~= ex);
        assert(s[0] == '}');
    }
    if b.len() > 0 {
        assert(s =~= seq![','] + (json_member(b[0]) + (more_members(b.skip(1)) + ey)));
        assert(s[0] == ',');
    } else {
        assert(s =~= ey);
        assert(s[0] == '}');
    }
    if a.len() > 0 {
        let ra = more_members(a.skip(1)) + ex;
        let rb = more_members(b.skip(1)) + ey;
        lemma_more_members_start(a.skip(1), x);
        lemma_more_members_start(b.skip(1), y);
        lemma_cancel(seq![','], json_member(a[0]) + ra, json_member(b[0]) + rb);
        lemma_member_ends(a[0], b[0], ra, rb);
        lemma_more_members_end(a.skip(1), b.skip(1), x, y);
        assert(a =~= seq![a[0]] + a.skip(1));
        assert(b =~= seq![b[0]] + b.skip(1));
    } else {
        assert(a =~= b);
        lemma_cancel(seq!['}'], x, y);
    }
}

proof fn lemma_more_members_start(members: Seq<(Seq<char>, ValueView)>, x: Seq<char>)
    ensures
        no_digit_first(more_members(members) + (seq!['}'] + x)),
{
    let s = more_members(members) + (seq!['}'] + x);
    if members.len() > 0 {
        assert(more_members(members)[0] == ',');
        assert(s[0] == ',');
    } else {
        assert(s[0] == '}');
    }
}

/// A written object ends where it ends, whatever follows it, and holds the members
/// that were written.
pub proof fn object_text_ends(
    a: Seq<(Seq<char>, ValueView)>,
    b: Seq<(Seq<char>, ValueView)>,
    x: Seq<char>,
    y: Seq<char>,
)
    requires
        json_object_text(a) + x == json_object_text(b) + y,
    ensures
        a == b,
        x == y,
{
    lemma_object_front(a, x);
    lemma_object_front(b, y);
    let ta = json_members(a) + (seq!['}'] + x);
    let tb = json_members(b) + (seq!['}'] + y);
    lemma_cancel(seq!['{'], ta, tb);
    // A comma in front makes the first member one that follows another.
    lemma_members_comma(a, x);
    lemma_members_comma(b, y);
    lemma_members_start(a, x);
    lemma_members_start(b, y);
    if a.len() > 0 && b.len() > 0 {
        lemma_more_members_end(a, b, x, y);
    } else {
        assert(a.len() == 0 && b.len() == 0);
        assert(a =~= b);
        lemma_cancel(json_members(a) + seq!['}'], x, y);
    }
}

proof fn lemma_object_front(members: Seq<(Seq<char>, ValueView)>, x: Seq<char>)
    ensures
        json_object_text(members) + x == seq!['{'] + (json_members(members) + (seq!['}'] + x)),
{
    assert(json_object_text(members) + x =~= seq!['{'] + (json_members(members) + (seq!['}'] + x)));
}

proof fn lemma_members_comma(members: Seq<(Seq<char>, ValueView)>, x: Seq<char>)
    ensures
        members.len() > 0 ==> more_members(members) + (seq!['}'] + x) == seq![','] + (json_members(
            members,
        ) + (seq!['}'] + x)),
{
    if members.len() > 0 {
        lemma_members_front(members);
        assert(more_members(members) + (seq!['}'] + x) =~= seq![','] + (json_members(members) + (
        seq!['}'] + x)));
    }
}

proof fn lemma_members_start(members: Seq<(Seq<char>, ValueView)>, x: Seq<char>)
    ensures
        (json_members(members) + (seq!['}'] + x)).len() > 0,
        (json_members(members) + (seq!['}'] + x))[0] == (if members.len() == 0 {
            '}'
        } else {
            '"'
        }),
        members.len() == 0 ==> json_members(members) + (seq!['}'] + x) == json_members(members)
            + seq!['}'] + x,
{
    if members.len() > 0 {
        lemma_members_front(members);
        assert(json_text(members[0].0)[0] == '"');
        assert(json_member(members[0])[0] == '"');
        assert(json_members(members)[0] == '"');
    } else {
        assert(json_members(members) =~= seq![]);
        assert(json_members(members) + (seq!['}'] + x) =~= json_members(members) + seq!['}'] + x);
    }
}

/// The canonical text of a step stands for one step, and ends where it ends,
/// whatever follows it.
pub proof fn step_json_ends(a: StepView, b: StepView, x: Seq<char>, y: Seq<char>)
    requires
        step_json(a) + x == step_json(b) + y,
    ensures
        a == b,
        x == y,
{
    reveal_strlit("remove_worktree");
    reveal_strlit("delete_dir");
    let ma = step_members(a);
    let mb = step_members(b);
    object_text_ends(ma, mb, x, y);
    assert(ma[0] == mb[0] && ma[1] == mb[1] && ma[2] == mb[2]);
    assert("remove_worktree"@.len() != "delete_dir"@.len());
}

/// An identity binding, as the digest takes it, stands for one binding, and ends
/// where it ends, whatever follows it.
pub proof fn identity_text_ends(
    a: Option<Identity>,
    b: Option<Identity>,
    x: Seq<char>,
    y: Seq<char>,
)
    requires
        identity_text(a) + x == identity_text(b) + y,
    ensures
        a == b,
        x == y,
{
    reveal_strlit("None");
    reveal_strlit("Some(Identity { dev: ");
    let s = identity_text(a) + x;
    assert(s[0] == identity_text(a)[0]);
    assert(s[0] == identity_text(b)[0]);
    match (a, b) {
        (Some(i), Some(j)) => {
            reveal_strlit(", ino: ");
            reveal_strlit(", mtime_ns: ");
            reveal_strlit(" })");
            let xm = " })"@ + x;
            let ym = " })"@ + y;
            let xi = ", mtime_ns: "@ + (decimal_text(i.mtime_ns as nat) + xm);
            let yi = ", mtime_ns: "@ + (decimal_text(j.mtime_ns as nat) + ym);
            let xd = ", ino: "@ + (decimal_text(i.ino as nat) + xi);
            let yd = ", ino: "@ + (decimal_text(j.ino as nat) + yi);
            lemma_identity_front(i, x);
            lemma_identity_front(j, y);
            lemma_cancel(
                "Some(Identity { dev: "@,
                decimal_text(i.dev as nat) + xd,
                decimal_text(j.dev as nat) + yd,
            );
            decimal_ends(i.dev as nat, j.dev as nat, xd, yd);
            lemma_cancel(
                ", ino: "@,
                decimal_text(i.ino as nat) + xi,
                decimal_text(j.ino as nat) + yi,
            );
            decimal_ends(i.ino as nat, j.ino as nat, xi, yi);
            lemma_cancel(
                ", mtime_ns: "@,
                decimal_text(i.mtime_ns as nat) + xm,
                decimal_text(j.mtime_ns as nat) + ym,
            );
            decimal_ends(i.mtime_ns as nat, j.mtime_ns as nat, xm, ym);
            lemma_cancel(" })"@, x, y);
        },
        (None, None) => lemma_cancel("None"@, x, y),
        _ => {},
    }
}

proof fn lemma_identity_front(i: Identity, x: Seq<char>)
    ensures
        identity_text(Some(i)) + x == "Some(Identity { dev: "@ + (decimal_text(i.dev as nat) + (
        ", ino: "@ + (decimal_text(i.ino as nat) + (", mtime_ns: "@ + (decimal_text(
            i.mtime_ns as nat,
        ) + (" })"@ + x)))))),
{
    assert(identity_text(Some(i)) + x =~= "Some(Identity { dev: "@ + (decimal_text(i.dev as nat) + (
    ", ino: "@ + (decimal_text(i.ino as nat) + (", mtime_ns: "@ + (decimal_text(i.mtime_ns as nat)
        + (" })"@ + x)))))));
}

/// The texts of steps and their bindings, one after another.
pub open spec fn bound_texts(steps: Seq<StepView>, bindings: Seq<Option<Identity>>) -> Seq<char>
    decreases steps.len(),
{
    if steps.len() == 0 || bindings.len() == 0 {
        seq![]
    } else {
        step_json(steps[0]) + (identity_text(bindings[0]) + bound_texts(
            steps.skip(1),
            bindings.skip(1),
        ))
    }
}

proof fn lemma_bound_texts_end(
    a: Seq<StepView>,
    a_bindings: Seq<Option<Identity>>,
    b: Seq<StepView>,
    b_bindings: Seq<Option<Identity>>,
)
    requires
        a.len() == a_bindings.len(),
        b.len() == b_bindings.len(),
        bound_texts(a, a_bindings) == bound_texts(b, b_bindings),
    ensures
        a == b,
        a_bindings == b_bindings,
    decreases a.len(),
{
    if a.len() > 0 && b.len() > 0 {
        let ra = bound_texts(a.skip(1), a_bindings.skip(1));
        let rb = bound_texts(b.skip(1), b_bindings.skip(1));
        step_json_ends(
            a[0],
            b[0],
            identity_text(a_bindings[0]) + ra,
            identity_text(b_bindings[0]) + rb,
        );
        identity_text_ends(a_bindings[0], b_bindings[0], ra, rb);
        lemma_bound_texts_end(a.skip(1), a_bindings.skip(1), b.skip(1), b_bindings.skip(1));
        assert(a =~= seq![a[0]] + a.skip(1));
        assert(b =~= seq![b[0]] + b.skip(1));
        assert(a_bindings =~= seq![a_bindings[0]] + a_bindings.skip(1));
        assert(b_bindings =~= seq![b_bindings[0]] + b_bindings.skip(1));
    } else {
        if a.len() > 0 {
            assert(step_json(a[0]).len() > 0);
        }
        if b.len() > 0 {
            assert(step_json(b[0]).len() > 0);
        }
        assert(a =~= b);
        assert(a_bindings =~= b_bindings);
    }
}

proof fn lemma_bound_texts_push(
    steps: Seq<StepView>,
    bindings: Seq<Option<Identity>>,
    step: StepView,
    binding: Option<Identity>,
)
    requires
        steps.len() == bindings.len(),
    ensures
        bound_texts(steps.push(step), bindings.push(binding)) == bound_texts(steps, bindings)
            + step_json(step) + identity_text(binding),
    decreases steps.len(),
{
    let all = steps.push(step);
    let bound = bindings.push(binding);
    if steps.len() == 0 {
        assert(bound_texts(all.skip(1), bound.skip(1)) =~= seq![]);
    } else {
        assert(all.skip(1) =~= steps.skip(1).push(step));
        assert(bound.skip(1) =~= bindings.skip(1).push(binding));
        lemma_bound_texts_push(steps.skip(1), bindings.skip(1), step, binding);
    }
    assert(bound_texts(all, bound) =~= bound_texts(steps, bindings) + step_json(step)
        + identity_text(binding));
}

proof fn lemma_encode_concat(a: Seq<char>, b: Seq<char>)
    ensures
        encode_utf8(a + b) == encode_utf8(a) + encode_utf8(b),
    decreases a.len(),
{
    if a.len() == 0 {
        assert(a + b =~= b);
        assert(encode_utf8(a) =~= seq![]);
        assert(encode_utf8(a) + encode_utf8(b) =~= encode_utf8(b));
    } else {
        assert((a + b).drop_first() =~= a.drop_first() + b);
        lemma_encode_concat(a.drop_first(), b);
        assert(encode_utf8(a + b) =~= encode_utf8(a) + encode_utf8(b));
    }
}

proof fn lemma_digest_input_text(steps: Seq<StepView>, bindings: Seq<Option<Identity>>, n: int)
    requires
        0 <= n <= steps.len(),
        n <= bindings.len(),
    ensures
        digest_input(steps, bindings, n) == encode_utf8(
            bound_texts(steps.take(n), bindings.take(n)),
        ),
    decreases n,
{
    if n == 0 {
        assert(bound_texts(steps.take(0), bindings.take(0)) =~= seq![]);
        assert(digest_input(steps, bindings, 0) =~= seq![]);
    } else {
        let before = bound_texts(steps.take(n - 1), bindings.take(n - 1));
        lemma_digest_input_text(steps, bindings, n - 1);
        assert(steps.take(n) =~= steps.take(n - 1).push(steps[n - 1]));
        assert(bindings.take(n) =~= bindings.take(n - 1).push(bindings[n - 1]));
        lemma_bound_texts_push(
            steps.take(n - 1),
            bindings.take(n - 1),
            steps[n - 1],
            bindings[n - 1],
        );
        lemma_encode_concat(before, step_json(steps[n - 1]));
        lemma_encode_concat(before + step_json(steps[n - 1]), identity_text(bindings[n - 1]));
    }
}

/// What a digest is taken over stands for one list of steps and one list of
/// bindings.
pub proof fn digest_input_is_unambiguous(
    a: Seq<StepView>,
    a_bindings: Seq<Option<Identity>>,
    b: Seq<StepView>,
    b_bindings: Seq<Option<Identity>>,
)
    requires
        a.len() == a_bindings.len(),
        b.len() == b_bindings.len(),
        digest_input(a, a_bindings, a.len() as int) == digest_input(
            b,
            b_bindings,
            b.len() as int,
        ),
    ensures
        a == b,
        a_bindings == b_bindings,
{
    lemma_digest_input_text(a, a_bindings, a.len() as int);
    lemma_digest_input_text(b, b_bindings, b.len() as int);
    assert(a.take(a.len() as int) =~= a);
    assert(b.take(b.len() as int) =~= b);
    assert(a_bindings.take(a.len() as int) =~= a_bindings);
    assert(b_bindings.take(b.len() as int) =~= b_bindings);
    encode_utf8_decode_utf8(bound_texts(a, a_bindings));
    encode_utf8_decode_utf8(bound_texts(b, b_bindings));
    lemma_bound_texts_end(a, a_bindings, b, b_bindings);
}

/// Bytes in hexadecimal stand for one list of bytes.
pub proof fn hex_text_is_unambiguous(a: Seq<u8>, b: Seq<u8>)
    requires
        hex_text(a) == hex_text(b),
    ensures
        a == b,
{
    let s = hex_text(a);
    assert(s.len() == 2 * a.len() && s.len() == 2 * b.len());
    assert forall|i: int| 0 <= i < a.len() implies a[i] == b[i] by {
        assert(s[2 * i] == hex_char(a[i] as int / 16));
        assert(hex_text(b)[2 * i] == hex_char(b[i] as int / 16));
        assert(s[2 * i + 1] == hex_char(a[i] as int % 16));
        assert(hex_text(b)[2 * i + 1] == hex_char(b[i] as int % 16));
        lemma_hex_chars(a[i] as int / 16, b[i] as int / 16);
        lemma_hex_chars(a[i] as int % 16, b[i] as int % 16);
    }
    assert(a =~= b);
}

/// The digest of a sealed plan stands for its steps and their bindings, and for
/// nothing else: where SHA-256 does not give the same for the two inputs that are
/// digested, unless they are the same, two sealed plans have the same digest
/// exactly where they have the same steps and the same bindings, whatever the
/// sizes.
pub proof fn digest_stands_for_the_plan(
    a: Seq<StepView>,
    a_bindings: Seq<Option<Identity>>,
    a_sizes: Seq<u64>,
    b: Seq<StepView>,
    b_bindings: Seq<Option<Identity>>,
    b_sizes: Seq<u64>,
)
    requires
        a.len() == a_bindings.len() == a_sizes.len(),
        b.len() == b_bindings.len() == b_sizes.len(),
    ensures
        ({
            let a_input = digest_input(a, a_bindings, a.len() as int);
            let b_input = digest_input(b, b_bindings, b.len() as int);
            sha256_bytes(a_input) == sha256_bytes(b_input) ==> a_input == b_input
        }) ==> (sealed(a, a_bindings, a_sizes).digest == sealed(b, b_bindings, b_sizes).digest
            <==> a == b && a_bindings == b_bindings),
{
    let a_input = digest_input(a, a_bindings, a.len() as int);
    let b_input = digest_input(b, b_bindings, b.len() as int);
    if sealed(a, a_bindings, a_sizes).digest == sealed(b, b_bindings, b_sizes).digest {
        lemma_cancel(
            "sha256:"@,
            hex_text(sha256_bytes(a_input)),
            hex_text(sha256_bytes(b_input)),
        );
        hex_text_is_unambiguous(sha256_bytes(a_input), sha256_bytes(b_input));
        if a_input == b_input {
            digest_input_is_unambiguous(a, a_bindings, b, b_bindings);
        }
    }
}

} // verus!
