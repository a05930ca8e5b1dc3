//! Paths that address a field of a form, one segment per level of nesting
//! (for example `["contacts", "0", "label"]`), and the cross-field check
//! that a registration form makes before it is submitted.
use vstd::prelude::*;

verus! {

/// A path to a form field.
#[derive(Clone, Debug)]
pub struct FormPath(pub Vec<String>);

impl FormPath {
    /// The path's segments, as character sequences.
    pub open spec fn segments(&self) -> Seq<Seq<char>> {
        self.0@.map_values(|s: String| s@)
    }
}

/// Builds a [`FormPath`] from its segments.
pub fn path(segments: &[&str]) -> (res: FormPath)
    ensures
        res.segments() == segments@.map_values(|s: &str| s@),
{
    let mut out: Vec<String> = Vec::new();
    let mut i: usize = 0;
    while i < segments.len()
        invariant
            i <= segments@.len(),
            out@.len() == i,
            out@.map_values(|s: String| s@) == segments@.take(i as int).map_values(|s: &str| s@),
        decreases segments@.len() - i,
    {
        let seg = segments[i].to_owned();
        let ghost prev = out@;
        out.push(seg);
        proof {
            let lhs = out@.map_values(|s: String| s@);
            let rhs = segments@.take(i + 1).map_values(|s: &str| s@);
            assert forall|j: int| 0 <= j < lhs.len() implies lhs[j] == rhs[j] by {
                if j < i {
                    assert(prev.map_values(|s: String| s@)[j] == segments@.take(i as int).map_values(|s: &str| s@)[j]);
                    assert(out@[j] == prev[j]);
                } else {
                    assert(out@[j] == seg);
                    assert(seg@ == segments@[j]@);
                }
            }
            assert(lhs =~= rhs);
        }
        i = i + 1;
    }
    proof {
        assert(segments@.take(segments@.len() as int) =~= segments@);
    }
    FormPath(out)
}

/// What submitting a registration form leads to.
#[derive(Clone, Copy, Debug, PartialEq, Eq)]
pub enum RegisterSubmit {
    /// The form goes out.
    Submit,
    /// The confirmation field gets the error "Passwords do not match." and
    /// the form is not sent.
    ConfirmMismatch,
}

/// The registration form is submitted only when the password and its
/// confirmation are the same text.
pub fn register_submit(password: &String, confirm: &String) -> (res: RegisterSubmit)
    ensures
        res == if password@ == confirm@ { RegisterSubmit::Submit } else { RegisterSubmit::ConfirmMismatch },
{
    if password.eq(confirm) {
        RegisterSubmit::Submit
    } else {
        RegisterSubmit::ConfirmMismatch
    }
}

} // verus!
