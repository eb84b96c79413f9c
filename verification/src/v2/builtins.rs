//! Helpers shared by the engines of the later revision.
use vstd::prelude::*;
use crate::text::{owned, push_str, str_eq};
use crate::v2::error::OnfexError;
use crate::v2::types::Field;

verus! {

broadcast use vstd::string::group_string_axioms;

/// The message of reading a private field from outside its `strouct`.
pub open spec fn private_field_message(field: Seq<char>, owner: Seq<char>) -> Seq<char> {
    "Valt Ern: '"@ + field + "' asp '"@ + owner + "' prive freld"@
}

/// A public field may be read from anywhere, a private one only from inside
/// the methods of its own `strouct` (`current_struct`).
pub fn check_field_visibility(struct_name: &str, field: &Field, current_struct: &Option<String>) -> (r: Result<(), OnfexError>)
    ensures
        (field.glb || (current_struct is Some && current_struct->Some_0@ == struct_name@)) ==> r is Ok,
        !(field.glb || (current_struct is Some && current_struct->Some_0@ == struct_name@)) ==> r == Err::<(), OnfexError>(
            OnfexError::Runtime { message: r->Err_0->Runtime_message, line: None, col: None },
        ) && r->Err_0->Runtime_message@ == private_field_message(field.name@, struct_name@),
{
    if field.glb {
        return Ok(());
    }
    match current_struct {
        Some(s) => {
            if str_eq(s.as_str(), struct_name) {
                return Ok(());
            }
        },
        None => {},
    }
    let mut m = owned("Valt Ern: '");
    push_str(&mut m, field.name.as_str());
    push_str(&mut m, "' asp '");
    push_str(&mut m, struct_name);
    push_str(&mut m, "' prive freld");
    Err(OnfexError::runtime(m))
}

} // verus!
