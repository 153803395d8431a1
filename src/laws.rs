use vstd::prelude::*;
use crate::binding::{Shape, position, positional_name, slot_names};
use crate::doc::{Meta, first_doc, template_of};
use crate::table::{VariantDecl, ref_args, render_variant};
use crate::template::{Mode, closing, compiled, fill, marker, marker_len, name_len, scan, strings_view};
use crate::text::{decimal, digit, is_name_char, is_white, trim, trim_end, trim_start};
use crate::value::{Value, debug_text, plain_text, rendered};

verus! {

/// `s` holds no `{`.
pub open spec fn no_brace(s: Seq<char>) -> bool {
    forall|i: int| 0 <= i < s.len() ==> s[i] != '{'
}

/// Every character of `s` may stand in a placeholder name.
pub open spec fn all_name_chars(s: Seq<char>) -> bool {
    forall|i: int| 0 <= i < s.len() ==> is_name_char(s[i])
}

/// What closes a placeholder of the given mode: `}` or `:?}`.
pub open spec fn closer(m: Mode) -> Seq<char> {
    match m {
        Mode::Plain => seq!['}'],
        Mode::Debug => seq![':', '?', '}'],
    }
}

/// The rendering of the part `b` of a template that follows a placeholder.
pub open spec fn render_rest(decl: VariantDecl, slots: Seq<Value>, b: Seq<char>) -> Seq<char> {
    fill(trim_end(scan(b).0), ref_args(slot_names(decl.shape), slots, scan(b).1))
}

proof fn lemma_scan_text_prefix(a: Seq<char>, rest: Seq<char>)
    requires
        no_brace(a),
    ensures
        scan(a + rest) == (a + scan(rest).0, scan(rest).1),
    decreases a.len(),
{
    if a.len() > 0 {
        assert((a + rest).skip(1) =~= a.skip(1) + rest);
        lemma_scan_text_prefix(a.skip(1), rest);
        assert(a =~= seq![a[0]] + a.skip(1));
        assert(seq![a[0]] + (a.skip(1) + scan(rest).0) =~= a + scan(rest).0);
    } else {
        assert(a + rest =~= rest);
        assert(a + scan(rest).0 =~= scan(rest).0);
    }
}

proof fn lemma_name_len_exact(f: Seq<char>, rest: Seq<char>)
    requires
        all_name_chars(f),
        rest.len() > 0,
        !is_name_char(rest[0]),
    ensures
        name_len(f + rest) == f.len(),
    decreases f.len(),
{
    if f.len() > 0 {
        assert((f + rest).skip(1) =~= f.skip(1) + rest);
        lemma_name_len_exact(f.skip(1), rest);
    } else {
        assert(f + rest =~= rest);
    }
}

proof fn lemma_scan_placeholder(f: Seq<char>, m: Mode, b: Seq<char>)
    requires
        all_name_chars(f),
    ensures
        scan(seq!['{'] + f + closer(m) + b) == (marker(m) + scan(b).0, seq![(f, m)] + scan(b).1),
{
    let s = seq!['{'] + f + closer(m) + b;
    assert(s.skip(1) =~= f + (closer(m) + b));
    lemma_name_len_exact(f, closer(m) + b);
    let n = f.len();
    assert(s.skip(1 + n as int) =~= closer(m) + b);
    assert(s.subrange(1, 1 + n as int) =~= f);
    let after = closer(m) + b;
    assert(closing(after).1 == m);
    assert(after.skip(closing(after).0 as int) =~= b);
}

proof fn lemma_trim_start_prefix(a: Seq<char>, r: Seq<char>)
    requires
        r.len() > 0,
        !is_white(r[0]),
    ensures
        trim_start(a + r) == trim_start(a) + r,
    decreases a.len(),
{
    if a.len() > 0 {
        assert((a + r).skip(1) =~= a.skip(1) + r);
        lemma_trim_start_prefix(a.skip(1), r);
        if !is_white(a[0]) {
            assert((a + r)[0] == a[0]);
        }
    } else {
        assert(a + r =~= r);
        assert(trim_start(a) + r =~= r);
    }
}

proof fn lemma_trim_end_suffix(p: Seq<char>, r: Seq<char>)
    requires
        p.len() > 0,
        !is_white(p.last()),
    ensures
        trim_end(p + r) == p + trim_end(r),
    decreases r.len(),
{
    if r.len() > 0 {
        assert((p + r).drop_last() =~= p + r.drop_last());
        lemma_trim_end_suffix(p, r.drop_last());
    } else {
        assert(p + r =~= p);
        assert(p + trim_end(r) =~= p);
    }
}

proof fn lemma_trim_start_no_brace(a: Seq<char>)
    requires
        no_brace(a),
    ensures
        no_brace(trim_start(a)),
    decreases a.len(),
{
    if a.len() > 0 && is_white(a[0]) {
        lemma_trim_start_no_brace(a.skip(1));
    }
}

proof fn lemma_fill_text_prefix(p: Seq<char>, rest: Seq<char>, args: Seq<Seq<char>>)
    requires
        no_brace(p),
    ensures
        fill(p + rest, args) == p + fill(rest, args),
    decreases p.len(),
{
    if p.len() > 0 {
        assert((p + rest).skip(1) =~= p.skip(1) + rest);
        lemma_fill_text_prefix(p.skip(1), rest, args);
        assert(p =~= seq![p[0]] + p.skip(1));
        assert(seq![p[0]] + (p.skip(1) + fill(rest, args)) =~= p + fill(rest, args));
    } else {
        assert(p + rest =~= rest);
        assert(p + fill(rest, args) =~= fill(rest, args));
    }
}

proof fn lemma_fill_marker(m: Mode, l: Seq<char>, args: Seq<Seq<char>>)
    requires
        args.len() > 0,
    ensures
        fill(marker(m) + l, args) == args[0] + fill(l, args.drop_first()),
{
    let s = marker(m) + l;
    assert(marker_len(s) == marker(m).len());
    assert(s.skip(marker(m).len() as int) =~= l);
}

/// The core of the placeholder laws: in a variant with a payload, a template made of text
/// `a` free of `{`, one placeholder `{f}` or `{f:?}`, and a remainder `b` renders as `a`
/// (less its leading white space), then the slot that `f` names in the placeholder's mode,
/// then the remainder.
proof fn lemma_placeholder(
    decl: VariantDecl,
    slots: Seq<Value>,
    a: Seq<char>,
    f: Seq<char>,
    m: Mode,
    b: Seq<char>,
)
    requires
        !(decl.shape is Unit),
        template_of(decl.attrs@) == a + seq!['{'] + f + closer(m) + b,
        no_brace(a),
        all_name_chars(f),
    ensures
        render_variant(decl, slots) == trim_start(a) + rendered(
            slots[position(slot_names(decl.shape), f) as int],
            m,
        ) + render_rest(decl, slots, b),
{
    let t = template_of(decl.attrs@);
    let names = slot_names(decl.shape);
    let tail = seq!['{'] + f + closer(m) + b;
    assert(t =~= a + tail);
    lemma_scan_text_prefix(a, tail);
    lemma_scan_placeholder(f, m, b);
    let lit = scan(t).0;
    let mk = marker(m);
    assert(lit =~= a + (mk + scan(b).0));
    lemma_trim_start_prefix(a, mk + scan(b).0);
    let p = trim_start(a) + mk;
    assert(trim_start(a) + (mk + scan(b).0) =~= p + scan(b).0);
    assert(p.last() == '}');
    lemma_trim_end_suffix(p, scan(b).0);
    assert(trim(lit) == p + trim_end(scan(b).0));
    let args = ref_args(names, slots, scan(t).1);
    assert(scan(t).1 =~= seq![(f, m)] + scan(b).1);
    assert(args.drop_first() =~= ref_args(names, slots, scan(b).1));
    lemma_trim_start_no_brace(a);
    assert(trim_start(a) + (mk + trim_end(scan(b).0)) =~= p + trim_end(scan(b).0));
    lemma_fill_text_prefix(trim_start(a), mk + trim_end(scan(b).0), args);
    lemma_fill_marker(m, trim_end(scan(b).0), args);
    assert(args[0] == rendered(slots[position(names, f) as int], m));
    assert(trim_start(a) + (args[0] + render_rest(decl, slots, b)) =~= trim_start(a) + args[0]
        + render_rest(decl, slots, b));
}

/// Past the first placeholder, each further one renders in the same way: the text before
/// it is kept as it stands, then comes the slot its name refers to in its mode, then the
/// rest. With the laws for the first placeholder, this describes the whole rendering.
pub proof fn later_placeholder_renders_slot(
    decl: VariantDecl,
    slots: Seq<Value>,
    a: Seq<char>,
    f: Seq<char>,
    m: Mode,
    b: Seq<char>,
)
    requires
        no_brace(a),
        all_name_chars(f),
    ensures
        render_rest(decl, slots, a + seq!['{'] + f + closer(m) + b) == a + rendered(
            slots[position(slot_names(decl.shape), f) as int],
            m,
        ) + render_rest(decl, slots, b),
{
    let names = slot_names(decl.shape);
    let tail = seq!['{'] + f + closer(m) + b;
    let t = a + seq!['{'] + f + closer(m) + b;
    assert(t =~= a + tail);
    lemma_scan_text_prefix(a, tail);
    lemma_scan_placeholder(f, m, b);
    let mk = marker(m);
    let p = a + mk;
    assert(scan(t).0 =~= p + scan(b).0);
    assert(p.last() == '}');
    lemma_trim_end_suffix(p, scan(b).0);
    let args = ref_args(names, slots, scan(t).1);
    assert(scan(t).1 =~= seq![(f, m)] + scan(b).1);
    assert(args.drop_first() =~= ref_args(names, slots, scan(b).1));
    assert(p + trim_end(scan(b).0) =~= a + (mk + trim_end(scan(b).0)));
    lemma_fill_text_prefix(a, mk + trim_end(scan(b).0), args);
    lemma_fill_marker(m, trim_end(scan(b).0), args);
    assert(a + (args[0] + render_rest(decl, slots, b)) =~= a + args[0] + render_rest(
        decl,
        slots,
        b,
    ));
}

proof fn lemma_trim_end_no_brace(s: Seq<char>)
    requires
        no_brace(s),
    ensures
        no_brace(trim_end(s)),
    decreases s.len(),
{
    if s.len() > 0 && is_white(s.last()) {
        lemma_trim_end_no_brace(s.drop_last());
    }
}

/// A remainder with no `{` renders as its own text, less trailing white space.
pub proof fn rest_without_placeholders(decl: VariantDecl, slots: Seq<Value>, b: Seq<char>)
    requires
        no_brace(b),
    ensures
        render_rest(decl, slots, b) == trim_end(b),
{
    let e = Seq::<char>::empty();
    lemma_scan_text_prefix(b, e);
    assert(b + e =~= b);
    assert(scan(e).0 =~= e);
    assert(b + scan(e).0 =~= b);
    lemma_trim_end_no_brace(b);
    let args = ref_args(slot_names(decl.shape), slots, scan(b).1);
    lemma_fill_text_prefix(trim_end(b), e, args);
    assert(trim_end(b) + e =~= trim_end(b));
}

/// A unit variant with a documentation entry renders as that entry's text, trimmed.
pub proof fn unit_variant_renders_trimmed_doc(decl: VariantDecl, slots: Seq<Value>, text: Seq<char>)
    requires
        decl.shape is Unit,
        first_doc(decl.attrs@) == Some(text),
    ensures
        render_variant(decl, slots) == trim(text),
{
}

/// A unit variant without a documentation entry renders as the empty string.
pub proof fn unit_variant_without_doc_renders_empty(decl: VariantDecl, slots: Seq<Value>)
    requires
        decl.shape is Unit,
        first_doc(decl.attrs@) is None,
    ensures
        render_variant(decl, slots) == Seq::<char>::empty(),
{
    assert(trim_start(Seq::<char>::empty()) =~= Seq::<char>::empty());
}

proof fn lemma_position_first(names: Seq<Seq<char>>, name: Seq<char>, k: int)
    requires
        0 <= k < names.len(),
        names[k] == name,
        forall|j: int| 0 <= j < k ==> names[j] != name,
    ensures
        position(names, name) == k,
    decreases k,
{
    if k > 0 {
        lemma_position_first(names.drop_first(), name, k - 1);
    }
}

/// In a variant with named fields, a placeholder `{f}` where `f` is the field at index `k`
/// renders as the plain text of that field's value, at the placeholder's place: the text
/// before it is kept (less leading white space) and the rest of the template follows.
pub proof fn named_field_renders_plain(
    decl: VariantDecl,
    slots: Seq<Value>,
    a: Seq<char>,
    f: Seq<char>,
    b: Seq<char>,
    k: int,
)
    requires
        decl.shape is Named,
        template_of(decl.attrs@) == a + seq!['{'] + f + seq!['}'] + b,
        no_brace(a),
        all_name_chars(f),
        0 <= k < decl.shape->Named_0@.len(),
        decl.shape->Named_0@[k]@ == f,
        forall|j: int| 0 <= j < k ==> decl.shape->Named_0@[j]@ != f,
    ensures
        render_variant(decl, slots) == trim_start(a) + plain_text(slots[k]) + render_rest(
            decl,
            slots,
            b,
        ),
{
    lemma_placeholder(decl, slots, a, f, Mode::Plain, b);
    lemma_position_first(slot_names(decl.shape), f, k);
}

/// In any variant with a payload, a placeholder `{f:?}` where `f` names slot `k` renders
/// as the structural text of that slot's value in place of its plain text.
pub proof fn debug_placeholder_renders_structural(
    decl: VariantDecl,
    slots: Seq<Value>,
    a: Seq<char>,
    f: Seq<char>,
    b: Seq<char>,
    k: int,
)
    requires
        !(decl.shape is Unit),
        template_of(decl.attrs@) == a + seq!['{'] + f + seq![':', '?', '}'] + b,
        no_brace(a),
        all_name_chars(f),
        k == position(slot_names(decl.shape), f),
        k < slot_names(decl.shape).len(),
    ensures
        render_variant(decl, slots) == trim_start(a) + debug_text(slots[k]) + render_rest(
            decl,
            slots,
            b,
        ),
{
    lemma_placeholder(decl, slots, a, f, Mode::Debug, b);
}

proof fn lemma_decimal_digits(n: nat)
    ensures
        decimal(n).len() > 0,
        all_name_chars(decimal(n)),
        n < 10 <==> decimal(n).len() == 1,
    decreases n,
{
    if n >= 10 {
        lemma_decimal_digits(n / 10);
    }
}

proof fn lemma_decimal_injective(x: nat, y: nat)
    requires
        decimal(x) == decimal(y),
    ensures
        x == y,
    decreases x,
{
    lemma_decimal_digits(x);
    lemma_decimal_digits(y);
    if x < 10 {
        assert(y < 10);
        assert(decimal(x)[0] == decimal(y)[0]);
        assert(decimal(x)[0] == digit(x));
        assert(decimal(y)[0] == digit(y));
        assert(digit(x) as u32 == x + 48);
        assert(digit(y) as u32 == y + 48);
    } else {
        let dx = decimal(x);
        let dy = decimal(y);
        assert(dx.drop_last() =~= decimal(x / 10));
        assert(dy.drop_last() =~= decimal(y / 10));
        assert(y >= 10);
        assert(dx.last() == dy.last());
        lemma_decimal_injective(x / 10, y / 10);
        assert(digit(x % 10) as u32 == x % 10 + 48);
        assert(digit(y % 10) as u32 == y % 10 + 48);
        assert(x % 10 == y % 10);
        assert(x == (x / 10) * 10 + x % 10);
        assert(y == (y / 10) * 10 + y % 10);
    }
}

/// In a variant with positional slots, `{_k}` names slot `k`, whatever the order in which
/// placeholders stand in the template: it renders as the plain text of slot `k`.
pub proof fn positional_placeholder_renders_slot(
    decl: VariantDecl,
    slots: Seq<Value>,
    a: Seq<char>,
    b: Seq<char>,
    k: nat,
)
    requires
        decl.shape is Positional,
        k < decl.shape->Positional_0,
        template_of(decl.attrs@) == a + seq!['{'] + positional_name(k) + seq!['}'] + b,
        no_brace(a),
    ensures
        render_variant(decl, slots) == trim_start(a) + plain_text(slots[k as int]) + render_rest(
            decl,
            slots,
            b,
        ),
{
    let names = slot_names(decl.shape);
    let f = positional_name(k);
    lemma_decimal_digits(k);
    assert(all_name_chars(f)) by {
        assert forall|i: int| 0 <= i < f.len() implies is_name_char(f[i]) by {
            if i > 0 {
                assert(f[i] == decimal(k)[i - 1]);
            }
        }
    }
    assert forall|j: int| 0 <= j < k implies names[j] != f by {
        if names[j] == f {
            assert(decimal(j as nat) =~= names[j].skip(1));
            assert(decimal(k) =~= f.skip(1));
            lemma_decimal_injective(j as nat, k);
        }
    }
    lemma_position_first(names, f, k as int);
    lemma_placeholder(decl, slots, a, f, Mode::Plain, b);
}

proof fn lemma_first_doc_prefix(attrs: Seq<Meta>, extra: Seq<Meta>)
    requires
        first_doc(attrs) is Some,
    ensures
        first_doc(attrs + extra) == first_doc(attrs),
    decreases attrs.len(),
{
    assert((attrs + extra)[0] == attrs[0]);
    if attrs[0] is Other {
        assert((attrs + extra).skip(1) =~= attrs.skip(1) + extra);
        lemma_first_doc_prefix(attrs.skip(1), extra);
    }
}

/// Only the first documentation entry is a template: entries after it, documentation lines
/// included, never change what a variant renders.
pub proof fn later_entries_are_ignored(
    decl: VariantDecl,
    longer: VariantDecl,
    extra: Seq<Meta>,
    slots: Seq<Value>,
)
    requires
        first_doc(decl.attrs@) is Some,
        longer.shape == decl.shape,
        longer.attrs@ == decl.attrs@ + extra,
    ensures
        render_variant(longer, slots) == render_variant(decl, slots),
{
    lemma_first_doc_prefix(decl.attrs@, extra);
}

/// The number of `{` in `s`: in a compiled literal, the number of its insertion markers.
pub open spec fn brace_count(s: Seq<char>) -> nat
    decreases s.len(),
{
    if s.len() == 0 {
        0
    } else {
        (if s[0] == '{' { 1nat } else { 0nat }) + brace_count(s.skip(1))
    }
}

proof fn lemma_brace_count_add(a: Seq<char>, b: Seq<char>)
    ensures
        brace_count(a + b) == brace_count(a) + brace_count(b),
    decreases a.len(),
{
    if a.len() > 0 {
        assert((a + b).skip(1) =~= a.skip(1) + b);
        lemma_brace_count_add(a.skip(1), b);
    } else {
        assert(a + b =~= b);
    }
}

proof fn lemma_brace_count_trim(s: Seq<char>)
    ensures
        brace_count(trim_start(s)) == brace_count(s),
        brace_count(trim_end(s)) == brace_count(s),
    decreases s.len(),
{
    if s.len() > 0 {
        lemma_brace_count_trim(s.skip(1));
        lemma_brace_count_trim(s.drop_last());
        assert(s =~= s.drop_last() + seq![s.last()]);
        lemma_brace_count_add(s.drop_last(), seq![s.last()]);
        assert(seq![s.last()].skip(1) =~= Seq::<char>::empty());
        if is_white(s.last()) {
            assert(s.last() != '{');
            assert(brace_count(Seq::<char>::empty()) == 0);
            assert(brace_count(seq![s.last()]) == 0);
        }
        assert(is_white(s[0]) ==> s[0] != '{');
    }
}

proof fn lemma_scan_count(s: Seq<char>)
    ensures
        brace_count(scan(s).0) == scan(s).1.len(),
    decreases s.len(),
{
    if s.len() > 0 {
        if s[0] != '{' {
            lemma_scan_count(s.skip(1));
            assert((seq![s[0]] + scan(s.skip(1)).0).skip(1) =~= scan(s.skip(1)).0);
        } else {
            let n = name_len(s.skip(1));
            crate::template::lemma_name_len_bound(s.skip(1));
            let after = s.skip(1 + n as int);
            let c = closing(after);
            let rest = after.skip(c.0 as int);
            lemma_scan_count(rest);
            lemma_brace_count_add(marker(c.1), scan(rest).0);
            let mk = marker(c.1);
            assert(brace_count(mk) == 1) by {
                let e = Seq::<char>::empty();
                assert(brace_count(e) == 0);
                assert(seq!['}'].skip(1) =~= e);
                assert(brace_count(seq!['}']) == 0);
                assert(mk.skip(1).skip(1) =~= mk.skip(2));
                if c.1 is Debug {
                    assert(seq!['?', '}'].skip(1) =~= seq!['}']);
                    assert(brace_count(seq!['?', '}']) == 0);
                    assert(seq![':', '?', '}'].skip(1) =~= seq!['?', '}']);
                    assert(brace_count(seq![':', '?', '}']) == 0);
                    assert(mk.skip(1) =~= seq![':', '?', '}']);
                } else {
                    assert(mk.skip(1) =~= seq!['}']);
                }
            }
        }
    }
}

/// A compiled template has exactly one insertion marker for each placeholder it lists.
pub proof fn markers_match_placeholders(template: Seq<char>)
    ensures
        brace_count(compiled(template).0) == compiled(template).1.len(),
{
    lemma_scan_count(template);
    lemma_brace_count_trim(scan(template).0);
    lemma_brace_count_trim(trim_start(scan(template).0));
}

} // verus!
