//! Validated collectible identifiers.

use vstd::prelude::*;

verus! {

use crate::GateId;
use vstd::string::StrSliceExecFns;

/// Whether `c` may appear in a gate identifier: ASCII letters, digits,
/// underscore and hyphen.
pub open spec fn valid_gate_char(c: char) -> bool {
    ('a' <= c && c <= 'z') || ('A' <= c && c <= 'Z') || ('0' <= c && c <= '9') || c == '_' || c
        == '-'
}

/// Whether `s` is a well-formed gate identifier: between 1 and 32 characters,
/// all from the allowed alphabet.
pub open spec fn valid_gate_chars(s: Seq<char>) -> bool {
    1 <= s.len() <= 32 && forall|i: int| 0 <= i < s.len() ==> valid_gate_char(s[i])
}

/// Checks whether a string is a well-formed gate identifier.
fn check_gate_chars(s: &String) -> (r: bool)
    ensures
        r == valid_gate_chars(s@),
{
    let st = s.as_str();
    let n = st.unicode_len();
    if n == 0 || n > 32 {
        return false;
    }
    let mut i: usize = 0;
    while i < n
        invariant
            i <= n,
            n == st@.len(),
            st@ == s@,
            forall|j: int| 0 <= j < i ==> valid_gate_char(s@[j]),
        decreases n - i,
    {
        let c = st.get_char(i);
        let ok = ('a' <= c && c <= 'z') || ('A' <= c && c <= 'Z') || ('0' <= c && c <= '9') || c
            == '_' || c == '-';
        if !ok {
            return false;
        }
        i += 1;
    }
    true
}

/// A gate identifier whose character set and length were checked on
/// construction: every value of this type is well-formed.
pub struct ValidGateId {
    id: GateId,
}

impl View for ValidGateId {
    type V = Seq<char>;

    closed spec fn view(&self) -> Seq<char> {
        self.id@
    }
}

impl ValidGateId {
    /// Every value of this type holds a well-formed identifier.
    #[verifier::type_invariant]
    pub open spec fn inv(self) -> bool {
        valid_gate_chars(self@)
    }

    /// Whether the held identifier is well-formed.  True of every value of
    /// this type; the check is repeated on the characters themselves.
    pub fn is_valid(&self) -> (r: bool)
        ensures
            r == valid_gate_chars(self@),
            r,
    {
        proof {
            use_type_invariant(self);
        }
        check_gate_chars(&self.id)
    }

    /// Returns the identifier as an owned string.
    pub fn to_string(&self) -> (r: String)
        ensures
            r@ == self@,
    {
        self.id.clone()
    }

    /// Wraps `value` if it is a well-formed gate identifier.
    pub fn try_from(value: String) -> (r: Option<ValidGateId>)
        ensures
            r is Some <==> valid_gate_chars(value@),
            match r {
                Some(g) => g@ == value@,
                None => true,
            },
    {
        if check_gate_chars(&value) {
            Some(ValidGateId { id: value })
        } else {
            None
        }
    }

    /// Clones the identifier wrapper.
    pub fn clone_id(&self) -> (r: ValidGateId)
        ensures
            r@ == self@,
    {
        proof {
            use_type_invariant(self);
        }
        ValidGateId { id: self.id.clone() }
    }
}

} // verus!
