use vstd::prelude::*;
use crate::vm::error::{VmError, VmErrorKind};
use crate::vm::value::{
    generate_error_message_when_mismatch_casting,
    values_view,
    FromValue,
    Value,
    ValueView,
};
use crate::vm::vm::{same_program, spec_force, RunResult, VmModel, VM};

verus! {

/// A list that the host holds: the values as the machine yielded them, and,
/// once the list was forced, each of them read as a `T`.
pub struct List<T: FromValue> {
    raw_child: Option<Vec<T>>,
    value_child: Vec<Value>,
}

/// What forcing the items from place `i` on gives, each read as a `T`: the
/// machine after the last of them and what each yields, or the first error.
pub open spec fn spec_force_list<T: FromValue>(m: VmModel, items: Seq<ValueView>, i: int) -> Result<
    (VmModel, Seq<ValueView>),
    VmErrorKind,
>
    decreases items.len() - i,
{
    if i < 0 || i >= items.len() {
        Ok((m, Seq::empty()))
    } else {
        match spec_force(m, items[i]) {
            RunResult::Failed(k) => Err(k),
            RunResult::Done(m2, v) => if !T::spec_accepts(v) {
                Err(VmErrorKind::ValueTypeMismatch)
            } else {
                match spec_force_list::<T>(m2, items, i + 1) {
                    Ok((m3, rest)) => Ok((m3, seq![v] + rest)),
                    Err(k) => Err(k),
                }
            },
        }
    }
}

impl<T> List<T> where T: FromValue {
    /// The values of the list as the machine yielded them.
    pub closed spec fn spec_pending(&self) -> Seq<ValueView> {
        values_view(self.value_child@)
    }

    /// The items of the list, once it was forced.
    pub closed spec fn spec_forced(&self) -> Option<Seq<T>> {
        match self.raw_child {
            Some(list) => Some(list@),
            None => None,
        }
    }

    /// A list of the given values, not yet forced.
    pub fn new(value: Vec<Value>) -> (r: Self)
        ensures
            r.spec_pending() == values_view(value@),
            r.spec_forced() is None,
    {
        List { raw_child: None, value_child: value }
    }

    /// The number of items of a forced list; 0 before the list was forced.
    pub fn len(&self) -> (r: usize)
        ensures
            r == match self.spec_forced() {
                Some(list) => list.len(),
                None => 0,
            },
    {
        match &self.raw_child {
            Some(list) => list.len(),
            None => 0,
        }
    }

    #[must_use]
    pub fn is_empty(&self) -> (r: bool)
        ensures
            r == match self.spec_forced() {
                Some(list) => list.len() == 0,
                None => true,
            },
    {
        self.len() == 0
    }

    /// The item at place `idx` of a forced list.
    pub fn get(&self, idx: usize) -> (r: Option<&T>)
        ensures
            match self.spec_forced() {
                Some(list) => if idx < list.len() {
                    r == Some(&list[idx as int])
                } else {
                    r is None
                },
                None => r is None,
            },
    {
        if let Some(list) = &self.raw_child {
            if idx < list.len() {
                Some(&list[idx])
            } else {
                None
            }
        } else {
            None
        }
    }

    /// A copy of the items of a forced list, in their order.
    pub fn iter(&self) -> (r: Option<Vec<T>>)
        ensures
            match self.spec_forced() {
                Some(list) => r matches Some(copy) && copy@.len() == list.len() && forall|
                    i: int,
                | 0 <= i < list.len() ==> cloned(list[i], #[trigger] copy@[i]),
                None => r is None,
            },
    {
        match &self.raw_child {
            Some(list) => {
                let mut out: Vec<T> = Vec::new();
                let mut i: usize = 0;
                while i < list.len()
                    invariant
                        i <= list@.len(),
                        out@.len() == i,
                        forall|j: int| 0 <= j < i ==> cloned(list@[j], #[trigger] out@[j]),
                    decreases list@.len() - i,
                {
                    out.push(list[i].clone());
                    i += 1;
                }
                Some(out)
            },
            None => None,
        }
    }

    /// Forces every item of the list on the machine, in their order, and
    /// reads each as a `T`. The items are kept, so that they are forced once.
    /// Where an item cannot be forced or read, the list stays as it was.
    pub fn force(&mut self, vm: &mut VM) -> (r: Result<(), VmError>)
        ensures
            final(self).spec_pending() == old(self).spec_pending(),
            same_program(final(vm)@, old(vm)@),
            match spec_force_list::<T>(old(vm)@, old(self).spec_pending(), 0) {
                Ok((m, views)) => {
                    &&& r is Ok
                    &&& final(vm)@ == m
                    &&& final(self).spec_forced() matches Some(list)
                    &&& list.len() == views.len()
                    &&& forall|i: int|
                        0 <= i < list.len() ==> T::spec_reads(views[i], #[trigger] list[i])
                },
                Err(k) => r matches Err(e) && e.spec_kind() == k && final(self).spec_forced()
                    == old(self).spec_forced(),
            },
    {
        let ghost items = self.spec_pending();
        let ghost done: Seq<ValueView> = Seq::empty();
        let mut forced: Vec<T> = Vec::new();
        let mut i: usize = 0;
        while i < self.value_child.len()
            invariant
                i <= self.value_child@.len(),
                *self == *old(self),
                items == self.spec_pending(),
                items.len() == self.value_child@.len(),
                same_program(vm@, old(vm)@),
                forced@.len() == done.len(),
                done.len() == i,
                forall|j: int| 0 <= j < forced@.len() ==> T::spec_reads(done[j], #[trigger] forced@[j]),
                spec_force_list::<T>(old(vm)@, items, 0) == (match spec_force_list::<T>(
                    vm@,
                    items,
                    i as int,
                ) {
                    Ok((m, rest)) => Ok((m, done + rest)),
                    Err(k) => Err(k),
                }),
            decreases self.value_child@.len() - i,
        {
            let ghost before = vm@;
            let value = self.value_child[i].clone();
            assert(value@ == items[i as int]);
            match vm.force::<T>(value) {
                Ok(item) => {
                    forced.push(item);
                    proof {
                        let v = spec_force(before, items[i as int])->Done_1;
                        match spec_force_list::<T>(vm@, items, i + 1) {
                            Ok((m, rest)) => {
                                assert(done + (seq![v] + rest) =~= done.push(v) + rest);
                            },
                            Err(_) => {},
                        }
                        done = done.push(v);
                    }
                },
                Err(e) => {
                    return Err(e);
                },
            }
            i += 1;
        }
        proof {
            assert(done + Seq::<ValueView>::empty() =~= done);
        }
        self.raw_child = Some(forced);
        Ok(())
    }
}

impl<T: FromValue> Clone for List<T> {
    fn clone(&self) -> (r: Self)
        ensures
            r.spec_pending() == self.spec_pending(),
            match self.spec_forced() {
                Some(list) => r.spec_forced() matches Some(copy) && copy.len() == list.len()
                    && forall|i: int| 0 <= i < list.len() ==> cloned(list[i], #[trigger] copy[i]),
                None => r.spec_forced() is None,
            },
    {
        let mut values: Vec<Value> = Vec::new();
        let mut i: usize = 0;
        while i < self.value_child.len()
            invariant
                i <= self.value_child@.len(),
                values@.len() == i,
                forall|j: int| 0 <= j < i ==> (#[trigger] values@[j])@ == self.value_child@[j]@,
            decreases self.value_child@.len() - i,
        {
            values.push(self.value_child[i].clone());
            i += 1;
        }
        assert(values_view(values@) =~= values_view(self.value_child@));
        let raw = match &self.raw_child {
            Some(list) => {
                let mut out: Vec<T> = Vec::new();
                let mut j: usize = 0;
                while j < list.len()
                    invariant
                        j <= list@.len(),
                        out@.len() == j,
                        forall|i: int| 0 <= i < j ==> cloned(list@[i], #[trigger] out@[i]),
                    decreases list@.len() - j,
                {
                    out.push(list[j].clone());
                    j += 1;
                }
                Some(out)
            },
            None => None,
        };
        List { raw_child: raw, value_child: values }
    }
}

impl<T> FromValue for List<T> where T: FromValue {
    open spec fn spec_accepts(v: ValueView) -> bool {
        v is List
    }

    open spec fn spec_reads(v: ValueView, r: Self) -> bool {
        v == ValueView::List(r.spec_pending()) && r.spec_forced() is None
    }

    open spec fn spec_dest_name() -> Seq<char> {
        "List"@
    }

    fn from_value(v: Value) -> (r: Result<Self, VmError>) {
        match v {
            Value::List(list) => Ok(List::new(list)),
            v => Err(
                VmError::ValueTypeMismatch {
                    message: generate_error_message_when_mismatch_casting(
                        v,
                        String::from_str("List"),
                    ),
                },
            ),
        }
    }
}

} // verus!
