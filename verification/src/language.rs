//! How a language writes placeholders.

use vstd::prelude::*;
use vstd::string::StrSliceExecFns;
use crate::meta_var::{MetaVariable, MetaVariableView};

verus! {

/// An optional placeholder descriptor, with its name as a sequence of characters.
pub open spec fn placeholder_view(meta_var: Option<MetaVariable>) -> Option<MetaVariableView> {
    match meta_var {
        Some(mv) => Some(mv@),
        None => None,
    }
}

/// A language, as far as patterns need to know it: which texts it reads as placeholders.
pub trait Language {
    /// The placeholder that `text` denotes in this language, if it denotes one.
    spec fn placeholder(&self, text: Seq<char>) -> Option<MetaVariableView>;

    /// Reads `source` as a placeholder.
    fn extract_meta_var(&self, source: &str) -> (r: Option<MetaVariable>)
        ensures
            placeholder_view(r) == self.placeholder(source@),
    ;
}

/// A character that may start the name of a placeholder: a capital letter or an underscore.
pub open spec fn is_valid_first_char(c: char) -> bool {
    ('A' <= c && c <= 'Z') || c == '_'
}

/// A character that may stand in the name of a placeholder: a capital letter, an underscore
/// or a digit.
pub open spec fn is_valid_meta_var_char(c: char) -> bool {
    is_valid_first_char(c) || ('0' <= c && c <= '9')
}

/// Whether a name is made of nothing but characters that may stand in one.
pub open spec fn is_valid_name(name: Seq<char>) -> bool {
    forall|i: int| 0 <= i < name.len() ==> is_valid_meta_var_char(#[trigger] name[i])
}

/// The placeholder that `text` denotes where `sigil` marks placeholders.
///
/// Three sigils and nothing else, or three sigils and a name that starts with an underscore,
/// are the unnamed ellipsis; three sigils and any other name are the ellipsis of that name.
/// One sigil and a name capture a named node, two sigils and a name capture any node; a name
/// that starts with an underscore binds nothing. A name starts with a capital letter or an
/// underscore and goes on with capital letters, underscores and digits.
pub open spec fn sigil_placeholder(text: Seq<char>, sigil: char) -> Option<MetaVariableView> {
    if text.len() >= 3 && text[0] == sigil && text[1] == sigil && text[2] == sigil {
        let name = text.skip(3);
        if name.len() == 0 {
            Some(MetaVariableView::Multiple)
        } else if !is_valid_name(name) {
            None
        } else if name[0] == '_' {
            Some(MetaVariableView::Multiple)
        } else {
            Some(MetaVariableView::MultiCapture(name))
        }
    } else if text.len() >= 1 && text[0] == sigil {
        let named = !(text.len() >= 2 && text[1] == sigil);
        let name = if named {
            text.skip(1)
        } else {
            text.skip(2)
        };
        if name.len() == 0 || !is_valid_first_char(name[0]) || !is_valid_name(name) {
            None
        } else if name[0] == '_' {
            Some(MetaVariableView::Dropped(named))
        } else {
            Some(MetaVariableView::Capture(name, named))
        }
    } else {
        None
    }
}

fn valid_first_char(c: char) -> (r: bool)
    ensures
        r == is_valid_first_char(c),
{
    ('A' <= c && c <= 'Z') || c == '_'
}

fn valid_meta_var_char(c: char) -> (r: bool)
    ensures
        r == is_valid_meta_var_char(c),
{
    valid_first_char(c) || ('0' <= c && c <= '9')
}

/// Whether the characters of `source` from `from` on make a valid name.
fn valid_name_from(source: &str, from: usize, len: usize) -> (r: bool)
    requires
        from <= len,
        len == source@.len(),
    ensures
        r == is_valid_name(source@.skip(from as int)),
{
    let mut i: usize = from;
    while i < len
        invariant
            from <= i <= len,
            len == source@.len(),
            forall|k: int| from <= k < i ==> is_valid_meta_var_char(#[trigger] source@[k]),
        decreases len - i,
    {
        if !valid_meta_var_char(source.get_char(i)) {
            assert(source@.skip(from as int)[i - from] == source@[i as int]);
            return false;
        }
        i += 1;
    }
    assert forall|k: int| 0 <= k < source@.skip(from as int).len() implies is_valid_meta_var_char(
        #[trigger] source@.skip(from as int)[k],
    ) by {
        assert(source@.skip(from as int)[k] == source@[from + k]);
    }
    true
}

/// A language that marks its placeholders with one character, the sigil.
#[derive(Debug, Clone, Copy)]
pub struct SigilSyntax {
    pub sigil: char,
}

impl Language for SigilSyntax {
    open spec fn placeholder(&self, text: Seq<char>) -> Option<MetaVariableView> {
        sigil_placeholder(text, self.sigil)
    }

    fn extract_meta_var(&self, source: &str) -> (r: Option<MetaVariable>) {
        let len = source.unicode_len();
        if len == 0 || source.get_char(0) != self.sigil {
            return None;
        }
        let second = len >= 2 && source.get_char(1) == self.sigil;
        if second && len >= 3 && source.get_char(2) == self.sigil {
            if len == 3 {
                return Some(MetaVariable::Multiple);
            }
            if !valid_name_from(source, 3, len) {
                return None;
            }
            assert(source@.skip(3)[0] == source@[3]);
            if source.get_char(3) == '_' {
                return Some(MetaVariable::Multiple);
            }
            let name = source.substring_char(3, len).to_owned();
            assert(source@.subrange(3, len as int) =~= source@.skip(3));
            return Some(MetaVariable::MultiCapture(name));
        }
        let start: usize = if second {
            2
        } else {
            1
        };
        if len == start {
            return None;
        }
        assert(source@.skip(start as int)[0] == source@[start as int]);
        let first = source.get_char(start);
        if !valid_first_char(first) || !valid_name_from(source, start, len) {
            return None;
        }
        if first == '_' {
            Some(MetaVariable::Dropped(!second))
        } else {
            let name = source.substring_char(start, len).to_owned();
            assert(source@.subrange(start as int, len as int) =~= source@.skip(start as int));
            Some(MetaVariable::Capture(name, !second))
        }
    }
}

} // verus!
