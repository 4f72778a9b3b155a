//! Getting at the value that an enum of one-field variants holds: by the
//! type of the variant, or by a type that is only known when the program
//! runs.

use vstd::prelude::*;

verus! {

/// An enum with a variant that holds a `T`.
pub trait EnumRef<T>: Sized {
    /// The `T` that the value holds, if it is of that variant. An
    /// implementation states it here.
    open spec fn held(&self) -> Option<T> {
        None
    }

    /// The `T` that the value holds, if it is of that variant.
    fn enum_ref(&self) -> (r: Option<&T>)
        ensures
            match r {
                Some(t) => self.held() == Some(*t),
                None => self.held() is None,
            },
    ;

    /// The `T` that the value holds, to be changed in place.
    fn enum_mut(&mut self) -> (r: Option<&mut T>)
        ensures
            match r {
                Some(t) => old(self).held() == Some(*t) && final(self).held() == Some(*final(t)),
                None => old(self).held() is None && *final(self) == *old(self),
            },
    ;
}

/// An enum whose variants can be told apart by a type that is chosen when
/// the program runs.
pub trait EnumCast: Sized {
    /// The value that is held, if it is a `T`.
    fn cast<T: 'static>(&self) -> Option<&T>;

    /// The value that is held, if it is a `T`, to be changed in place.
    fn cast_mut<T: 'static>(&mut self) -> Option<&mut T>;

    /// The variant that holds `t`, if there is one for a `T`.
    fn from_any<T: 'static>(t: T) -> Option<Self>;
}

/// The reverse of `EnumCast::from_any`, for every type.
pub trait IntoEnum {
    /// The variant of `T` that holds this value, if `T` has one for it.
    fn into_enum<T: EnumCast>(self) -> (r: Option<T>) where Self: 'static + Sized
        ensures
            call_ensures(T::from_any::<Self>, (self,), r),
    {
        T::from_any(self)
    }
}

impl<T> IntoEnum for T {

}

/// `<dyn Any>::downcast_ref` of std on `value`: a reference to `value` as a
/// `T` if `S` and `T` are one type, else `None`. Nothing of it is stated.
#[verifier::external_body]
pub(crate) fn any_ref<S: 'static, T: 'static>(value: &S) -> Option<&T> {
    (value as &dyn core::any::Any).downcast_ref::<T>()
}

/// `<dyn Any>::downcast_mut` of std on `value`: a mutable reference to
/// `value` as a `T` if `S` and `T` are one type, else `None`. Nothing of it
/// is stated.
#[verifier::external_body]
pub(crate) fn any_mut<S: 'static, T: 'static>(value: &mut S) -> Option<&mut T> {
    (value as &mut dyn core::any::Any).downcast_mut::<T>()
}

/// `r` is what `<dyn Any>::downcast_ref` gives for `value`: `value` seen as
/// a `T`.
pub closed spec fn seen_as<S: 'static, T: 'static>(value: &S, r: Option<&T>) -> bool {
    call_ensures(any_ref::<S, T>, (value,), r)
}

/// `value` seen as a `T`, if it is one.
pub(crate) fn cast_ref<S: 'static, T: 'static>(value: &S) -> (r: Option<&T>)
    ensures
        seen_as(value, r),
{
    any_ref::<S, T>(value)
}

} // verus!
