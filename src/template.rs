use vstd::prelude::*;
use crate::text::{chars_of, push_char, is_name_char, is_name_character, string_of, trim, trim_bounds};

verus! {

/// How the value behind a placeholder is rendered.
#[derive(Clone, Copy, Debug, PartialEq, Eq, Structural)]
pub enum Mode {
    /// `{name}`: the user-facing rendering.
    Plain,
    /// `{name:?}`: the structural (debug) rendering.
    Debug,
}

/// One placeholder of a template: the name it refers to and how to render it.
#[derive(Debug)]
pub struct Placeholder {
    pub name: String,
    pub mode: Mode,
}

impl View for Placeholder {
    type V = (Seq<char>, Mode);

    open spec fn view(&self) -> (Seq<char>, Mode) {
        (self.name@, self.mode)
    }
}

/// A template with each placeholder replaced by an insertion marker (`{}` or `{:?}`),
/// and the placeholders in the order of their markers.
#[derive(Debug)]
pub struct CompiledTemplate {
    pub literal: String,
    pub refs: Vec<Placeholder>,
}

pub open spec fn refs_view(refs: Seq<Placeholder>) -> Seq<(Seq<char>, Mode)> {
    refs.map_values(|p: Placeholder| p@)
}

impl View for CompiledTemplate {
    type V = (Seq<char>, Seq<(Seq<char>, Mode)>);

    open spec fn view(&self) -> (Seq<char>, Seq<(Seq<char>, Mode)>) {
        (self.literal@, refs_view(self.refs@))
    }
}

/// The number of name characters at the start of `s`.
pub open spec fn name_len(s: Seq<char>) -> nat
    decreases s.len(),
{
    if s.len() > 0 && is_name_char(s[0]) {
        1 + name_len(s.skip(1))
    } else {
        0
    }
}

pub proof fn lemma_name_len_bound(s: Seq<char>)
    ensures
        name_len(s) <= s.len(),
    decreases s.len(),
{
    if s.len() > 0 && is_name_char(s[0]) {
        lemma_name_len_bound(s.skip(1));
    }
}

/// What follows a placeholder's name: how many characters it takes, and the mode.
/// `:?` marks the structural mode and takes the character after it as well; a lone `:`
/// or a `}` is taken; anything else is left in place.
pub open spec fn closing(after: Seq<char>) -> (nat, Mode) {
    if after.len() >= 2 && after[0] == ':' && after[1] == '?' {
        (if after.len() >= 3 { 3nat } else { 2nat }, Mode::Debug)
    } else if after.len() >= 1 && (after[0] == ':' || after[0] == '}') {
        (1nat, Mode::Plain)
    } else {
        (0nat, Mode::Plain)
    }
}

/// The insertion marker for a mode.
pub open spec fn marker(m: Mode) -> Seq<char> {
    match m {
        Mode::Plain => seq!['{', '}'],
        Mode::Debug => seq!['{', ':', '?', '}'],
    }
}

/// One left-to-right pass over a template: the literal with its markers (not yet trimmed),
/// and the placeholders in order.
pub open spec fn scan(s: Seq<char>) -> (Seq<char>, Seq<(Seq<char>, Mode)>)
    decreases s.len(),
{
    if s.len() == 0 {
        (Seq::empty(), Seq::empty())
    } else if s[0] != '{' {
        let r = scan(s.skip(1));
        (seq![s[0]] + r.0, r.1)
    } else {
        let n = name_len(s.skip(1));
        let after = s.skip(1 + n as int);
        let c = closing(after);
        proof {
            lemma_name_len_bound(s.skip(1));
        }
        let r = scan(after.skip(c.0 as int));
        (marker(c.1) + r.0, seq![(s.subrange(1, 1 + n as int), c.1)] + r.1)
    }
}

/// The compiled form of a template: the scanned literal trimmed of white space at both ends.
pub open spec fn compiled(template: Seq<char>) -> (Seq<char>, Seq<(Seq<char>, Mode)>) {
    (trim(scan(template).0), scan(template).1)
}

/// Compiles a template into a literal with insertion markers and its ordered placeholders.
/// Never fails: malformed placeholders are read leniently.
pub fn compile(template: &str) -> (c: CompiledTemplate)
    ensures
        c@ == compiled(template@),
{
    let s = chars_of(template);
    let n = s.len();
    let mut lit: Vec<char> = Vec::new();
    let mut refs: Vec<Placeholder> = Vec::new();
    let mut i: usize = 0;
    assert(s@.skip(0) =~= s@);
    assert(refs_view(refs@) =~= Seq::empty());
    while i < n
        invariant
            i <= n == s@.len(),
            s@ == template@,
            scan(s@).0 == lit@ + scan(s@.skip(i as int)).0,
            scan(s@).1 == refs_view(refs@) + scan(s@.skip(i as int)).1,
        decreases n - i,
    {
        let ghost rest = s@.skip(i as int);
        let ghost lit0 = lit@;
        let ghost refs0 = refs@;
        assert(rest.skip(1) =~= s@.skip(i + 1));
        if s[i] != '{' {
            lit.push(s[i]);
            i = i + 1;
            assert(lit@ =~= lit0 + seq![rest[0]]);
        } else {
            let mut j: usize = i + 1;
            while j < n && is_name_character(s[j])
                invariant
                    i < j <= n == s@.len(),
                    name_len(s@.skip(i + 1)) == (j - i - 1) + name_len(s@.skip(j as int)),
                    forall|t: int| i < t < j ==> is_name_char(#[trigger] s@[t]),
                decreases n - j,
            {
                assert(s@.skip(j as int).skip(1) =~= s@.skip(j + 1));
                j = j + 1;
            }
            let name = string_of(&s, i + 1, j);
            let k: usize;
            let mode: Mode;
            if j < n && j + 1 < n && s[j] == ':' && s[j + 1] == '?' {
                k = if j + 2 < n { 3 } else { 2 };
                mode = Mode::Debug;
                lit.push('{');
                lit.push(':');
                lit.push('?');
                lit.push('}');
            } else {
                k = if j < n && (s[j] == ':' || s[j] == '}') { 1 } else { 0 };
                mode = Mode::Plain;
                lit.push('{');
                lit.push('}');
            }
            refs.push(Placeholder { name, mode });
            proof {
                let nl = name_len(rest.skip(1));
                assert(nl == j - i - 1);
                assert(rest.skip(1 + nl as int) =~= s@.skip(j as int));
                assert(rest.subrange(1, 1 + nl as int) =~= s@.subrange(i + 1, j as int));
                assert(s@.skip(j as int).skip(k as int) =~= s@.skip(j + k));
                assert(lit@ =~= lit0 + marker(mode));
                assert(refs_view(refs@) =~= refs_view(refs0) + seq![(name@, mode)]);
            }
            i = j + k;
        }
    }
    let (a, b) = trim_bounds(&lit);
    CompiledTemplate { literal: string_of(&lit, a, b), refs }
}

/// The length of the insertion marker at the start of `lit`, which begins with `{`.
pub open spec fn marker_len(lit: Seq<char>) -> nat {
    if lit.len() >= 2 && lit[1] == '}' {
        2
    } else if lit.len() >= 4 && lit[1] == ':' && lit[2] == '?' && lit[3] == '}' {
        4
    } else {
        1
    }
}

/// The literal with its markers replaced, in order, by `args`; a marker with no argument
/// left is dropped. All other characters are kept as they stand.
pub open spec fn fill(lit: Seq<char>, args: Seq<Seq<char>>) -> Seq<char>
    decreases lit.len(),
{
    if lit.len() == 0 {
        Seq::empty()
    } else if lit[0] == '{' {
        let head = if args.len() > 0 { args[0] } else { Seq::empty() };
        let tail = if args.len() > 0 { args.drop_first() } else { args };
        head + fill(lit.skip(marker_len(lit) as int), tail)
    } else {
        seq![lit[0]] + fill(lit.skip(1), args)
    }
}

pub open spec fn strings_view(v: Seq<String>) -> Seq<Seq<char>> {
    v.map_values(|a: String| a@)
}

/// Evaluates a literal with insertion markers: each marker is replaced by the next of `args`.
pub fn fill_markers(literal: &str, args: &Vec<String>) -> (r: String)
    ensures
        r@ == fill(literal@, strings_view(args@)),
{
    let lit = chars_of(literal);
    let n = lit.len();
    let ghost all = strings_view(args@);
    let mut out = String::new();
    let mut i: usize = 0;
    let mut a: usize = 0;
    assert(lit@.skip(0) =~= lit@);
    assert(all.skip(0) =~= all);
    while i < n
        invariant
            i <= n == lit@.len(),
            lit@ == literal@,
            a <= args@.len(),
            all == strings_view(args@),
            fill(lit@, all) == out@ + fill(lit@.skip(i as int), all.skip(a as int)),
        decreases n - i,
    {
        let ghost rest = lit@.skip(i as int);
        if lit[i] == '{' {
            let k: usize = if n - i > 1 && lit[i + 1] == '}' {
                2
            } else if n - i > 3 && lit[i + 1] == ':' && lit[i + 2] == '?' && lit[i + 3] == '}' {
                4
            } else {
                1
            };
            assert(k == marker_len(rest));
            assert(rest.skip(k as int) =~= lit@.skip(i + k));
            if a < args.len() {
                out.append(args[a].as_str());
                assert(all.skip(a as int).drop_first() =~= all.skip(a + 1));
                a = a + 1;
            }
            i = i + k;
        } else {
            push_char(&mut out, lit[i]);
            assert(rest.skip(1) =~= lit@.skip(i + 1));
            i = i + 1;
        }
    }
    out
}

} // verus!
