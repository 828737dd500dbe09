//! Name mangling for code emission: a qualified name rendered and rewritten
//! into an identifier the native toolchain accepts.
use vstd::prelude::*;

use crate::qualifiedname::{QualifiedName, render};
use vstd::string::StrSliceExecFns;

verus! {

/// Relies on String::push: appends the given character to the end of the
/// string.
pub assume_specification[ std::string::String::push ](s: &mut String, c: char)
    ensures
        final(s)@ == old(s)@.push(c),
;

/// What one character of a rendered name becomes in an emitted identifier:
/// separators and markers become underscores, parentheses vanish, all else
/// stays.
pub open spec fn convert_char(c: char) -> Seq<char> {
    if c == '.' || c == ',' || c == ' ' || c == '#' {
        seq!['_']
    } else if c == '(' || c == ')' {
        Seq::empty()
    } else {
        seq![c]
    }
}

/// The conversion applied to every character, in order.
pub open spec fn convert_chars(s: Seq<char>) -> Seq<char>
    decreases s.len(),
{
    if s.len() == 0 {
        Seq::empty()
    } else {
        convert_chars(s.drop_last()) + convert_char(s.last())
    }
}

/// The identifier a qualified name is emitted under: its rendering with
/// every `.`, `,`, space and `#` replaced by `_` and parentheses removed.
pub fn convertName(name: &QualifiedName) -> (r: String)
    ensures
        r@ == convert_chars(render(name@)),
{
    let rendered = name.toString();
    let mut out = String::new();
    let n = rendered.as_str().unicode_len();
    proof {
        assert(rendered@.take(0) =~= Seq::<char>::empty());
        assert(out@ =~= convert_chars(rendered@.take(0)));
    }
    for i in 0..n
        invariant
            n == rendered@.len(),
            rendered@ == render(name@),
            out@ == convert_chars(rendered@.take(i as int)),
    {
        let c = rendered.as_str().get_char(i);
        if c == '.' || c == ',' || c == ' ' || c == '#' {
            out.push('_');
        } else if c == '(' || c == ')' {
        } else {
            out.push(c);
        }
        proof {
            assert(rendered@.take(i + 1).drop_last() =~= rendered@.take(i as int));
            assert(rendered@.take(i + 1).last() == rendered@[i as int]);
            assert(out@ =~= convert_chars(rendered@.take(i as int)) + convert_char(
                rendered@[i as int],
            ));
        }
    }
    proof {
        assert(rendered@.take(n as int) =~= rendered@);
    }
    out
}

} // verus!
