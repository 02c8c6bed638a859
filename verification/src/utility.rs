use vstd::prelude::*;

verus! {

/// Relies on `uuid::Uuid::new_v4` and `uuid::fmt::Simple::encode_upper`: a
/// freshly drawn random UUID rendered in the simple (hyphen-free) upper-case
/// format, which is exactly 32 characters long. The value is random, so
/// nothing beyond its length is promised.
#[verifier::external_body]
pub fn generate_id() -> (id: String)
    ensures
        id@.len() == 32,
{
    let mut buf = uuid::Uuid::encode_buffer();
    let id = uuid::Uuid::new_v4().simple().encode_upper(&mut buf);

    String::from(&*id)
}

} // verus!
