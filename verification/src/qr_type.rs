use vstd::prelude::*;

verus! {

/// The kinds of QR symbol.
#[derive(Debug, Hash, PartialEq, Eq, Clone, Copy, Structural)]
pub enum Type {
    Model1,
    Model2,
    Micro,
    RectMicro,
}

impl Type {
    /// Whether `a` and `b` are the same kind.
    pub fn const_eq(a: Type, b: Type) -> (res: bool)
        ensures
            res == (a == b),
    {
        match (a, b) {
            (Type::Model1, Type::Model1) => true,
            (Type::Model2, Type::Model2) => true,
            (Type::Micro, Type::Micro) => true,
            (Type::RectMicro, Type::RectMicro) => true,
            _ => false,
        }
    }
}

} // verus!
