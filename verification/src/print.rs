use std::fmt::{Debug, DebugStruct, Error, Formatter};
use vstd::prelude::*;

verus! {

/// `std::fmt::Formatter`: where a value is printed.
#[verifier::external_type_specification]
#[verifier::external_body]
pub struct ExFormatter<'a>(Formatter<'a>);

/// `std::fmt::Error`: that nothing more can be printed there.
#[verifier::external_type_specification]
#[verifier::external_body]
pub struct ExError(Error);

/// `std::fmt::DebugStruct`: a struct of which some fields are printed.
#[verifier::external_type_specification]
#[verifier::external_body]
pub struct ExDebugStruct<'a, 'b: 'a>(DebugStruct<'a, 'b>);

/// Calls `Formatter::write_str`, which writes `s` as it is. Nothing is claimed: what has been
/// written cannot be read back from a formatter, and whether it can be written rests with the
/// place.
#[verifier::external_body]
pub(crate) fn write_str(f: &mut Formatter<'_>, s: &str) -> (r: Result<(), Error>) {
    f.write_str(s)
}

/// Calls `Debug::fmt` of `value` by way of `write!`. Nothing is claimed, as for [`write_str`].
#[verifier::external_body]
pub(crate) fn write_debug<V: Debug>(f: &mut Formatter<'_>, value: &V) -> (r: Result<(), Error>) {
    write!(f, "{value:?}")
}

/// Calls `Formatter::debug_struct`, which begins to print a struct of that name. Nothing is
/// claimed, as for [`write_str`].
#[verifier::external_body]
pub(crate) fn debug_struct<'a, 'b>(f: &'a mut Formatter<'b>, name: &str) -> (s: DebugStruct<
    'a,
    'b,
>) {
    f.debug_struct(name)
}

/// Calls `DebugStruct::field`, which prints a field. Nothing is claimed, as for [`write_str`].
#[verifier::external_body]
pub(crate) fn field<V: Debug>(s: &mut DebugStruct<'_, '_>, name: &str, value: &V) {
    s.field(name, value);
}

/// Calls `DebugStruct::finish`, which ends the struct. Nothing is claimed, as for
/// [`write_str`].
#[verifier::external_body]
pub(crate) fn finish(s: &mut DebugStruct<'_, '_>) -> (r: Result<(), Error>) {
    s.finish()
}

/// Prints `value` between two texts.
pub(crate) fn write_between<V: Debug>(
    f: &mut Formatter<'_>,
    before: &str,
    value: &V,
    after: &str,
) -> (r: Result<(), Error>) {
    match write_str(f, before) {
        Ok(()) => {},
        Err(e) => return Err(e),
    }
    match write_debug(f, value) {
        Ok(()) => {},
        Err(e) => return Err(e),
    }
    write_str(f, after)
}

} // verus!
