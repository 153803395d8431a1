use vstd::prelude::*;
use crate::template::Mode;
use crate::text::{decimal, push_char, push_decimal};

verus! {

/// The live value of one payload slot.
#[derive(Debug)]
pub enum Value {
    Unsigned(u64),
    Signed(i64),
    Bool(bool),
    Text(String),
}

/// The quoted, escaped form that `{:?}` gives a string.
pub uninterp spec fn debug_quoted(s: Seq<char>) -> Seq<char>;

/// Relies on `<str as Debug>::fmt`: the string quoted and escaped, which depends on its
/// characters alone.
#[verifier::external_body]
fn debug_string(s: &str) -> (r: String)
    ensures
        r@ == debug_quoted(s@),
{
    format!("{:?}", s)
}

/// The text of an integer in decimal, with a minus sign when it is negative.
pub open spec fn signed_decimal(x: int) -> Seq<char> {
    if x < 0 {
        seq!['-'] + decimal((-x) as nat)
    } else {
        decimal(x as nat)
    }
}

/// The user-facing rendering of a value (`{}`).
pub open spec fn plain_text(v: Value) -> Seq<char> {
    match v {
        Value::Unsigned(n) => decimal(n as nat),
        Value::Signed(x) => signed_decimal(x as int),
        Value::Bool(b) => if b {
            seq!['t', 'r', 'u', 'e']
        } else {
            seq!['f', 'a', 'l', 's', 'e']
        },
        Value::Text(s) => s@,
    }
}

/// The structural rendering of a value (`{:?}`): strings are quoted and escaped, the
/// rest render as in the plain form.
pub open spec fn debug_text(v: Value) -> Seq<char> {
    match v {
        Value::Text(s) => debug_quoted(s@),
        _ => plain_text(v),
    }
}

pub open spec fn rendered(v: Value, m: Mode) -> Seq<char> {
    match m {
        Mode::Plain => plain_text(v),
        Mode::Debug => debug_text(v),
    }
}

/// Renders a value in the given mode.
pub fn render_value(v: &Value, m: Mode) -> (r: String)
    ensures
        r@ == rendered(*v, m),
{
    let mut out = String::new();
    match v {
        Value::Unsigned(n) => {
            push_decimal(&mut out, *n);
        },
        Value::Signed(x) => {
            let x = *x;
            if x < 0 {
                push_char(&mut out, '-');
                let magnitude: u64 = ((-(x + 1)) as u64) + 1;
                push_decimal(&mut out, magnitude);
            } else {
                push_decimal(&mut out, x as u64);
            }
        },
        Value::Bool(b) => {
            if *b {
                push_char(&mut out, 't');
                push_char(&mut out, 'r');
                push_char(&mut out, 'u');
                push_char(&mut out, 'e');
            } else {
                push_char(&mut out, 'f');
                push_char(&mut out, 'a');
                push_char(&mut out, 'l');
                push_char(&mut out, 's');
                push_char(&mut out, 'e');
            }
        },
        Value::Text(s) => {
            match m {
                Mode::Plain => {
                    out = s.clone();
                },
                Mode::Debug => {
                    out = debug_string(s.as_str());
                },
            }
        },
    }
    proof {
        assert(out@ =~= rendered(*v, m));
    }
    out
}

} // verus!
