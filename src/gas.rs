//! The gas limit a run is given.
use vstd::prelude::*;

verus! {

/// How much gas a run may use.
#[derive(Clone, Copy, Debug, PartialEq, Eq, Structural)]
pub enum GasLimit {
    /// Gas is not counted at all.
    Disabled,
    /// Gas is counted with no limit set by the user.
    Unlimited,
    /// Gas is counted up to the given amount.
    Limited(usize),
}

/// Why a gas limit cannot be used.
#[derive(Clone, Copy, Debug, PartialEq, Eq, Structural)]
pub enum GasError {
    /// The package turns gas counting off, yet a limit was given.
    LimitWithGasDisabled,
}

impl GasLimit {
    /// The limit asked for: none given is unlimited, zero turns gas off.
    pub fn parse(value: Option<usize>) -> (r: GasLimit)
        ensures
            r == (match value {
                Some(v) => if v == 0 {
                    GasLimit::Disabled
                } else {
                    GasLimit::Limited(v)
                },
                None => GasLimit::Unlimited,
            }),
    {
        match value {
            Some(0) => GasLimit::Disabled,
            Some(v) => GasLimit::Limited(v),
            None => GasLimit::Unlimited,
        }
    }

    /// The limit once the package's own setting is known: unchanged when the
    /// package counts gas; disabled when it does not, which is an error if
    /// the user gave a limit.
    pub fn with_gas_enabled(self, gas_enabled: bool) -> (r: Result<GasLimit, GasError>)
        ensures
            r == (if gas_enabled {
                Ok(self)
            } else if self.is_defined_spec() {
                Err(GasError::LimitWithGasDisabled)
            } else {
                Ok(GasLimit::Disabled)
            }),
    {
        if !gas_enabled && self.is_defined() {
            Err(GasError::LimitWithGasDisabled)
        } else if gas_enabled {
            Ok(self)
        } else {
            Ok(GasLimit::Disabled)
        }
    }

    /// Whether the user set the limit: anything but `Unlimited`.
    pub open spec fn is_defined_spec(self) -> bool {
        !(self is Unlimited)
    }

    /// Whether gas counting is off.
    pub fn is_disabled(&self) -> (r: bool)
        ensures
            r == (*self is Disabled),
    {
        match self {
            GasLimit::Disabled => true,
            _ => false,
        }
    }

    /// Whether the user set the limit.
    pub fn is_defined(&self) -> (r: bool)
        ensures
            r == self.is_defined_spec(),
    {
        match self {
            GasLimit::Unlimited => false,
            _ => true,
        }
    }

    /// The gas a run gets: none when counting is off, the whole range when
    /// unlimited.
    pub fn value(&self) -> (r: Option<usize>)
        ensures
            r == (match *self {
                GasLimit::Disabled => None,
                GasLimit::Limited(v) => Some(v),
                GasLimit::Unlimited => Some(usize::MAX),
            }),
    {
        match self {
            GasLimit::Disabled => None,
            GasLimit::Limited(v) => Some(*v),
            GasLimit::Unlimited => Some(usize::MAX),
        }
    }
}

} // verus!
