//! The values that a program computes, and how the host reads them.

pub mod function;
pub mod list;
pub mod table;

pub use crate::vm::value::function::{Arg, Function, ToArgValue};
pub use crate::vm::value::list::List;
pub use crate::vm::value::table::Table;

use vstd::prelude::*;
use crate::vm::error::{VmError, VmErrorKind};
use crate::vm::tree::{index_from, Tree, TreeModel};

verus! {

/// A value in a register or in a table, a list or the argument queue.
#[derive(Debug)]
pub enum Value {
    Int(i64),
    String(String),
    Table(Box<Tree<Value>>),
    List(Vec<Value>),
    /// A deferred value: the number of its thunk.
    Thunk(u32),
    /// A function: its number in the function table.
    Function(u32),
    /// Nothing was stored yet.
    Uninitialized,
}

/// What a value holds, as a mathematical value.
pub enum ValueView {
    Int(i64),
    String(Seq<char>),
    Table(Box<TreeModel<ValueView>>),
    List(Seq<ValueView>),
    Thunk(u32),
    Function(u32),
    Uninitialized,
}

/// What a tree of values holds.
pub open spec fn tree_view(tree: Tree<Value>) -> TreeModel<ValueView>
    decreases tree, 0nat,
{
    match tree {
        Tree::Leaf(None) => TreeModel::Leaf(None),
        Tree::Leaf(Some(value)) => TreeModel::Leaf(Some(value_view(value))),
        Tree::Branchs(entries) => TreeModel::Branchs(
            Seq::new(
                entries@.len(),
                |i: int|
                    if 0 <= i < entries@.len() {
                        (entries@[i].0@, tree_view(entries@[i].1))
                    } else {
                        (Seq::empty(), TreeModel::Leaf(None))
                    },
            ),
        ),
    }
}

/// What a value holds.
pub open spec fn value_view(value: Value) -> ValueView
    decreases value, 0nat,
{
    match value {
        Value::Int(number) => ValueView::Int(number),
        Value::String(text) => ValueView::String(text@),
        Value::Table(tree) => ValueView::Table(Box::new(tree_view(*tree))),
        Value::List(items) => ValueView::List(values_view(items@)),
        Value::Thunk(idx) => ValueView::Thunk(idx),
        Value::Function(idx) => ValueView::Function(idx),
        Value::Uninitialized => ValueView::Uninitialized,
    }
}

/// What each of a run of values holds.
pub open spec fn values_view(items: Seq<Value>) -> Seq<ValueView>
    decreases items, 1nat,
{
    Seq::new(
        items.len(),
        |i: int|
            if 0 <= i < items.len() {
                value_view(items[i])
            } else {
                ValueView::Uninitialized
            },
    )
}

impl View for Value {
    type V = ValueView;

    open spec fn view(&self) -> ValueView {
        value_view(*self)
    }
}

impl ValueView {
    /// The name of the value's type, as error messages give it.
    pub open spec fn kind_name(self) -> Seq<char> {
        match self {
            ValueView::Int(_) => "Int"@,
            ValueView::String(_) => "String"@,
            ValueView::Table(_) => "Table"@,
            ValueView::List(_) => "List"@,
            ValueView::Thunk(_) => "Thunk"@,
            ValueView::Function(_) => "Function"@,
            ValueView::Uninitialized => "None"@,
        }
    }
}

/// The view of a tree of values whose model holds the values themselves.
pub open spec fn model_view(model: TreeModel<Value>) -> TreeModel<ValueView>
    decreases model,
{
    match model {
        TreeModel::Leaf(None) => TreeModel::Leaf(None),
        TreeModel::Leaf(Some(value)) => TreeModel::Leaf(Some(value@)),
        TreeModel::Branchs(entries) => TreeModel::Branchs(
            Seq::new(
                entries.len(),
                |i: int|
                    if 0 <= i < entries.len() {
                        (entries[i].0, model_view(entries[i].1))
                    } else {
                        (Seq::empty(), TreeModel::Leaf(None))
                    },
            ),
        ),
    }
}

/// The view of a tree of values is the view of its model.
pub proof fn lemma_tree_view_model(tree: Tree<Value>)
    ensures
        tree_view(tree) == model_view(tree.model()),
    decreases tree,
{
    match tree {
        Tree::Leaf(_) => {},
        Tree::Branchs(entries) => {
            let a = tree_view(tree)->Branchs_0;
            let b = model_view(tree.model())->Branchs_0;
            assert forall|i: int| 0 <= i < a.len() implies a[i] == b[i] by {
                vstd::std_specs::vec::axiom_vec_index_decreases(entries, i);
                assert(decreases_to!(entries[i] => entries[i].1));
                lemma_tree_view_model(entries@[i].1);
            }
            assert(a =~= b);
        },
    }
}

proof fn lemma_model_view_index(
    entries: Seq<(Seq<char>, TreeModel<Value>)>,
    key: Seq<char>,
    from: int,
)
    requires
        0 <= from,
    ensures
        index_from(model_view(TreeModel::Branchs(entries))->Branchs_0, key, from) == index_from(
            entries,
            key,
            from,
        ),
    decreases entries.len() - from,
{
    if from < entries.len() {
        lemma_model_view_index(entries, key, from + 1);
    }
}

/// Storing a value in a tree of values stores its view in the tree's view.
pub proof fn lemma_model_view_insert(model: TreeModel<Value>, path: Seq<Seq<char>>, value: Value)
    ensures
        model_view(model.insert(path, value)) == model_view(model).insert(path, value@),
    decreases path.len(),
{
    if path.len() > 0 {
        let entries = match model {
            TreeModel::Leaf(_) => Seq::empty(),
            TreeModel::Branchs(entries) => entries,
        };
        let ventries = match model_view(model) {
            TreeModel::Leaf(_) => Seq::empty(),
            TreeModel::Branchs(entries) => entries,
        };
        assert(ventries =~= model_view(TreeModel::Branchs(entries))->Branchs_0);
        lemma_model_view_index(entries, path[0], 0);
        crate::vm::tree::lemma_index_from(entries, path[0], 0);
        let idx = index_from(entries, path[0], 0);
        let grown = if idx < entries.len() {
            entries
        } else {
            entries.push((path[0], TreeModel::Leaf(None)))
        };
        let vgrown = if idx < ventries.len() {
            ventries
        } else {
            ventries.push((path[0], TreeModel::Leaf(None)))
        };
        assert(model_view(TreeModel::<Value>::Leaf(None)) == TreeModel::<ValueView>::Leaf(None));
        assert(vgrown =~= model_view(TreeModel::Branchs(grown))->Branchs_0);
        lemma_model_view_insert(grown[idx].1, path.drop_first(), value);
        let after = grown.update(idx, (grown[idx].0, grown[idx].1.insert(path.drop_first(), value)));
        let vafter = vgrown.update(
            idx,
            (vgrown[idx].0, vgrown[idx].1.insert(path.drop_first(), value@)),
        );
        assert(model_view(TreeModel::Branchs(after))->Branchs_0 =~= vafter);
    }
}

/// Following a path in the view of a tree of values finds the view of what
/// the path finds in the tree.
pub proof fn lemma_model_view_walk(model: TreeModel<Value>, path: Seq<Seq<char>>)
    ensures
        model_view(model).walk(path) == match model.walk(path) {
            Some(value) => Some(value@),
            None => None,
        },
        model_view(model).get(path) == match model.get(path) {
            Some(value) => Some(value@),
            None => None,
        },
    decreases path.len(),
{
    match model {
        TreeModel::Leaf(_) => {},
        TreeModel::Branchs(entries) => {
            if path.len() > 0 {
                lemma_model_view_index(entries, path[0], 0);
                crate::vm::tree::lemma_index_from(entries, path[0], 0);
                let idx = index_from(entries, path[0], 0);
                if idx < entries.len() {
                    lemma_model_view_walk(entries[idx].1, path.drop_first());
                }
            }
        },
    }
}

/// A copy of a tree of values that shares nothing with it.
pub fn copy_tree(tree: &Tree<Value>) -> (r: Tree<Value>)
    ensures
        tree_view(r) == tree_view(*tree),
    decreases tree, 0nat,
{
    match tree {
        Tree::Leaf(None) => Tree::Leaf(None),
        Tree::Leaf(Some(value)) => Tree::Leaf(Some(copy_value(value))),
        Tree::Branchs(entries) => {
            let mut out: Vec<(String, Tree<Value>)> = Vec::new();
            let mut i: usize = 0;
            while i < entries.len()
                invariant
                    i <= entries@.len(),
                    out@.len() == i,
                    *tree == Tree::Branchs(*entries),
                    forall|j: int|
                        0 <= j < i ==> (#[trigger] out@[j]).0@ == entries@[j].0@ && tree_view(
                            out@[j].1,
                        ) == tree_view(entries@[j].1),
                decreases entries@.len() - i,
            {
                proof {
                    vstd::std_specs::vec::axiom_vec_index_decreases(*entries, i as int);
                    assert(decreases_to!(*tree => tree->Branchs_0));
                    assert(decreases_to!(entries[i as int] => entries[i as int].1));
                }
                let key = entries[i].0.clone();
                let child = copy_tree(&entries[i].1);
                out.push((key, child));
                i += 1;
            }
            let r = Tree::Branchs(out);
            assert(tree_view(r)->Branchs_0 =~= tree_view(*tree)->Branchs_0);
            r
        },
    }
}

/// A copy of a value that shares nothing with it.
pub fn copy_value(value: &Value) -> (r: Value)
    ensures
        r@ == value@,
    decreases value, 0nat,
{
    match value {
        Value::Int(number) => Value::Int(*number),
        Value::String(text) => Value::String(text.clone()),
        Value::Table(tree) => Value::Table(Box::new(copy_tree(tree))),
        Value::List(items) => {
            let mut out: Vec<Value> = Vec::new();
            let mut i: usize = 0;
            while i < items.len()
                invariant
                    i <= items@.len(),
                    out@.len() == i,
                    *value == Value::List(*items),
                    forall|j: int| 0 <= j < i ==> (#[trigger] out@[j])@ == items@[j]@,
                decreases items@.len() - i,
            {
                proof {
                    vstd::std_specs::vec::axiom_vec_index_decreases(*items, i as int);
                    assert(decreases_to!(*value => value->List_0));
                }
                let item = copy_value(&items[i]);
                out.push(item);
                i += 1;
            }
            let r = Value::List(out);
            assert(r@->List_0 =~= value@->List_0);
            r
        },
        Value::Thunk(idx) => Value::Thunk(*idx),
        Value::Function(idx) => Value::Function(*idx),
        Value::Uninitialized => Value::Uninitialized,
    }
}

impl Clone for Value {
    /// A deep copy: the clone holds what the value holds and shares nothing
    /// with it.
    fn clone(&self) -> (r: Self)
        ensures
            r@ == self@,
    {
        copy_value(self)
    }
}

/// The text of the error for a value of type `src` that was asked for as a
/// `dest`.
pub open spec fn mismatch_message(src: Seq<char>, dest: Seq<char>) -> Seq<char> {
    "Cannot casting from "@ + src + " to "@ + dest
}

/// The message for a value that does not have the type that was asked for.
pub fn generate_error_message_when_mismatch_casting(src: Value, dest: String) -> (r: String)
    ensures
        r@ == mismatch_message(src@.kind_name(), dest@),
{
    let name = src.fmt();
    String::from_str("Cannot casting from ").concat(name.as_str()).concat(" to ").concat(
        dest.as_str(),
    )
}

impl Value {
    /// The name of the value's type.
    pub fn fmt(&self) -> (r: String)
        ensures
            r@ == self@.kind_name(),
    {
        match self {
            Value::Int(_) => String::from_str("Int"),
            Value::String(_) => String::from_str("String"),
            Value::Table(_) => String::from_str("Table"),
            Value::List(_) => String::from_str("List"),
            Value::Thunk(_) => String::from_str("Thunk"),
            Value::Function(_) => String::from_str("Function"),
            Value::Uninitialized => String::from_str("None"),
        }
    }

    /// The text of a string value; any other value is a type mismatch.
    pub fn to_string(&self) -> (r: Result<String, VmError>)
        ensures
            match *self {
                Value::String(text) => r matches Ok(copy) && copy@ == text@,
                _ => r matches Err(e) && e.spec_kind() == VmErrorKind::ValueTypeMismatch
                    && e.spec_message() == "value not string"@,
            },
    {
        match self {
            Value::String(text) => Ok(text.clone()),
            _ => Err(VmError::ValueTypeMismatch { message: String::from_str("value not string") }),
        }
    }

    /// Reads the value as a `T`.
    pub fn val<T>(self) -> (r: Result<T, VmError>) where T: FromValue
        ensures
            r is Ok <==> T::spec_accepts(self@),
            r matches Ok(x) ==> T::spec_reads(self@, x),
            r matches Err(e) ==> e.spec_kind() == VmErrorKind::ValueTypeMismatch
                && e.spec_message() == mismatch_message(self@.kind_name(), T::spec_dest_name()),
    {
        T::from_value(self)
    }
}

/// A type that the host can read a value as.
pub trait FromValue: Sized + Clone {
    /// Whether a value that holds `v` can be read as this type.
    spec fn spec_accepts(v: ValueView) -> bool;

    /// Whether `r` is what reading a value that holds `v` as this type
    /// gives.
    spec fn spec_reads(v: ValueView, r: Self) -> bool;

    /// The name of this type in the message of a mismatch.
    spec fn spec_dest_name() -> Seq<char>;

    /// Reads a value as this type. A value of another type is a type
    /// mismatch, whose message names both types.
    fn from_value(v: Value) -> (r: Result<Self, VmError>)
        ensures
            r is Ok <==> Self::spec_accepts(v@),
            r matches Ok(x) ==> Self::spec_reads(v@, x),
            r matches Err(e) ==> e.spec_kind() == VmErrorKind::ValueTypeMismatch
                && e.spec_message() == mismatch_message(v@.kind_name(), Self::spec_dest_name()),
    ;
}

impl FromValue for i64 {
    open spec fn spec_accepts(v: ValueView) -> bool {
        v is Int
    }

    open spec fn spec_reads(v: ValueView, r: Self) -> bool {
        v == ValueView::Int(r)
    }

    open spec fn spec_dest_name() -> Seq<char> {
        "i64"@
    }

    fn from_value(v: Value) -> (r: Result<Self, VmError>) {
        match v {
            Value::Int(number) => Ok(number),
            v => Err(
                VmError::ValueTypeMismatch {
                    message: generate_error_message_when_mismatch_casting(
                        v,
                        String::from_str("i64"),
                    ),
                },
            ),
        }
    }
}

impl FromValue for String {
    open spec fn spec_accepts(v: ValueView) -> bool {
        v is String
    }

    open spec fn spec_reads(v: ValueView, r: Self) -> bool {
        v == ValueView::String(r@)
    }

    open spec fn spec_dest_name() -> Seq<char> {
        "String"@
    }

    fn from_value(v: Value) -> (r: Result<Self, VmError>) {
        match v {
            Value::String(text) => Ok(text),
            v => Err(
                VmError::ValueTypeMismatch {
                    message: generate_error_message_when_mismatch_casting(
                        v,
                        String::from_str("String"),
                    ),
                },
            ),
        }
    }
}

} // verus!
