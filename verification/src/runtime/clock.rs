//! The native `clock` function.
use vstd::prelude::*;
use crate::number::{float_add, float_div, float_from_integer, float_of_integer, float_quotient, float_sum};
use crate::runtime::value::{Value, ValueView};
use crate::runtime::error::{ControlFlow, ControlFlowView, RuntimeError, RuntimeErrorView};

verus! {

/// The seconds since the Unix epoch, as a double, from whole seconds and
/// nanoseconds: the seconds converted, plus the nanoseconds converted and
/// divided by a billion.
pub open spec fn seconds_value(secs: u64, nanos: u32) -> u64 {
    float_sum(float_of_integer(secs as i128), float_quotient(float_of_integer(nanos as i128), float_of_integer(1_000_000_000)))
}

/// Calls `SystemTime::now` and `duration_since(UNIX_EPOCH)`, and gives the
/// whole seconds and the nanoseconds of the duration, or nothing if the
/// clock stands before the epoch. What it returns depends on the time, so
/// nothing is said of it but the range of the nanoseconds that `Duration`
/// documents.
#[verifier::external_body]
fn time_since_epoch() -> (r: Option<(u64, u32)>)
    ensures
        r matches Some(t) ==> t.1 < 1_000_000_000,
{
    match std::time::SystemTime::now().duration_since(std::time::UNIX_EPOCH) {
        Ok(d) => Some((d.as_secs(), d.subsec_nanos())),
        Err(_) => None,
    }
}

/// The value `clock()` returns at a time given as seconds and nanoseconds
/// since the epoch.
pub fn clock_value(secs: u64, nanos: u32) -> (r: Value)
    ensures
        r@ == ValueView::Float(seconds_value(secs, nanos)),
{
    let s = float_from_integer(secs as i128);
    let n = float_from_integer(nanos as i128);
    let billion = float_from_integer(1_000_000_000);
    Value::Float(float_add(s, float_div(n, billion)))
}

/// The native function `clock`: no parameters; it returns the seconds since
/// the Unix epoch as a float.
#[derive(Debug)]
pub struct Clock;

impl Clock {
    /// It takes no arguments.
    pub fn arity(&self) -> (r: usize)
        ensures
            r == 0,
    {
        0
    }

    /// Its name.
    pub fn name(&self) -> (r: &'static str)
        ensures
            r@ == "clock"@,
    {
        "clock"
    }

    /// How it prints.
    pub fn to_string(&self) -> (r: String)
        ensures
            r@ == "<native fn clock>"@,
    {
        String::from_str("<native fn clock>")
    }

    /// The current time in seconds since the epoch; an error if the system
    /// clock stands before the epoch.
    pub fn call(&self) -> (r: Result<Value, ControlFlow>)
        ensures
            r is Ok ==> r->Ok_0 is Float && exists|secs: u64, nanos: u32| nanos < 1_000_000_000 && #[trigger] seconds_value(secs, nanos) == r->Ok_0->Float_0,
            r is Err ==> r->Err_0@ == ControlFlowView::RuntimeError(
                RuntimeErrorView { line: 0, message: "Time went backwards"@ },
            ),
    {
        match time_since_epoch() {
            Some((secs, nanos)) => {
                let v = clock_value(secs, nanos);
                assert(seconds_value(secs, nanos) == v->Float_0);
                Ok(v)
            },
            None => Err(ControlFlow::RuntimeError(RuntimeError::new(0, String::from_str("Time went backwards")))),
        }
    }
}

} // verus!
