use vstd::prelude::*;
use crate::vm::error::VmError;
use crate::vm::value::{
    generate_error_message_when_mismatch_casting,
    values_view,
    FromValue,
    Value,
    ValueView,
};
use crate::vm::vm::{read_gives, same_program, spec_call, VM};

verus! {

/// A named argument.
pub struct Arg {
    pub name: String,
    pub value: Value,
}

/// A function that the host holds: its number in the function table.
#[derive(Clone, Copy, Debug)]
pub struct Function {
    pub idx: u32,
}

/// What the host can pass as the arguments of a call.
pub trait ToArgValue: Sized {
    /// The arguments, in the order of the parameters.
    spec fn spec_arg_values(self) -> Seq<ValueView>;

    /// The arguments as values, in the order of the parameters.
    fn to_arg_values(self) -> (r: Vec<Value>)
        ensures
            values_view(r@) == self.spec_arg_values(),
    ;
}

impl ToArgValue for () {
    open spec fn spec_arg_values(self) -> Seq<ValueView> {
        Seq::empty()
    }

    fn to_arg_values(self) -> (r: Vec<Value>) {
        let r: Vec<Value> = Vec::new();
        assert(values_view(r@) =~= Seq::empty());
        r
    }
}

impl ToArgValue for Vec<Value> {
    open spec fn spec_arg_values(self) -> Seq<ValueView> {
        values_view(self@)
    }

    fn to_arg_values(self) -> (r: Vec<Value>) {
        self
    }
}

impl Function {
    /// Calls the function on `args` and reads what it yields as an `R`. The
    /// arguments are pushed in the order of the parameters, the code of the
    /// function is run, and the value that it yields must be of the type
    /// that was asked for.
    pub fn call<R, A>(&self, vm: &mut VM, args: A) -> (r: Result<R, VmError>) where
        A: ToArgValue,
        R: FromValue,

        ensures
            read_gives::<R>(
                spec_call(old(vm)@, self.idx, args.spec_arg_values()),
                final(vm)@,
                r,
            ),
            same_program(final(vm)@, old(vm)@),
    {
        let values = args.to_arg_values();
        let value = match vm.eval_function(self.idx, values) {
            Ok(value) => value,
            Err(e) => {
                return Err(e);
            },
        };
        R::from_value(value)
    }
}

impl FromValue for Function {
    open spec fn spec_accepts(v: ValueView) -> bool {
        v is Function
    }

    open spec fn spec_reads(v: ValueView, r: Self) -> bool {
        v == ValueView::Function(r.idx)
    }

    open spec fn spec_dest_name() -> Seq<char> {
        "Function"@
    }

    fn from_value(v: Value) -> (r: Result<Self, VmError>) {
        match v {
            Value::Function(idx) => Ok(Function { idx }),
            v => Err(
                VmError::ValueTypeMismatch {
                    message: generate_error_message_when_mismatch_casting(
                        v,
                        String::from_str("Function"),
                    ),
                },
            ),
        }
    }
}

} // verus!
