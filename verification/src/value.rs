//! The dynamic value: what a variable of the script holds at run time.

use vstd::prelude::*;
use vstd::string::*;
use vstd::std_specs::cmp::PartialEqSpecImpl;
use crate::float::FasFloat;
use crate::func::{AstFuncExpr, FuncModel};
use crate::task::TaskValue;
use crate::syntax::{float_of_text, i64_of, parse_float, parse_i64};
use crate::text::{int_text, int_to_text, same_text};
use crate::types::{AstArrayType, AstFuncType, AstMapType, AstType};

verus! {

/// A value of the script.
///
/// The two maps hold their entries in a list; an entry's key is meant to
/// occur once (see [`ValueModel::well_formed`]).
#[derive(Debug)]
pub enum FasValue {
    Null,
    Bool(bool),
    Int(i64),
    Float(FasFloat),
    String(String),
    Array(Vec<FasValue>),
    IMap(Vec<(i64, FasValue)>),
    SMap(Vec<(String, FasValue)>),
    Func(Box<AstFuncExpr>),
    Task(TaskValue),
}

/// What a value is, as mathematics. A float is its bit pattern, a task the
/// number of its handle.
pub enum ValueModel {
    Null,
    Bool(bool),
    Int(int),
    Float(u64),
    Str(Seq<char>),
    Array(Seq<ValueModel>),
    IMap(Seq<(int, ValueModel)>),
    SMap(Seq<(Seq<char>, ValueModel)>),
    Func(FuncModel),
    Task(u64),
}

impl FasValue {
    /// What the value is, as mathematics.
    pub open spec fn model(&self) -> ValueModel
        decreases self,
    {
        match self {
            FasValue::Null => ValueModel::Null,
            FasValue::Bool(b) => ValueModel::Bool(*b),
            FasValue::Int(i) => ValueModel::Int(*i as int),
            FasValue::Float(f) => ValueModel::Float(f.bits),
            FasValue::String(s) => ValueModel::Str(s@),
            FasValue::Array(items) => ValueModel::Array(
                Seq::new(
                    items.len() as nat,
                    |i: int|
                        if 0 <= i < items.len() {
                            items[i].model()
                        } else {
                            ValueModel::Null
                        },
                ),
            ),
            FasValue::IMap(entries) => ValueModel::IMap(
                Seq::new(
                    entries.len() as nat,
                    |i: int|
                        if 0 <= i < entries.len() {
                            (entries[i].0 as int, entries[i].1.model())
                        } else {
                            (0, ValueModel::Null)
                        },
                ),
            ),
            FasValue::SMap(entries) => ValueModel::SMap(
                Seq::new(
                    entries.len() as nat,
                    |i: int|
                        if 0 <= i < entries.len() {
                            (entries[i].0@, entries[i].1.model())
                        } else {
                            (Seq::empty(), ValueModel::Null)
                        },
                ),
            ),
            FasValue::Func(f) => ValueModel::Func((**f).view()),
            FasValue::Task(t) => ValueModel::Task(t.view()),
        }
    }
}

impl View for FasValue {
    type V = ValueModel;

    open spec fn view(&self) -> ValueModel {
        self.model()
    }
}

/// The models of a list of values, in order.
pub open spec fn value_models(items: Vec<FasValue>) -> Seq<ValueModel> {
    Seq::new(items.len() as nat, |i: int| items[i]@)
}

/// A copy of the values, in order.
pub fn copy_values(items: &Vec<FasValue>) -> (r: Vec<FasValue>)
    ensures
        value_models(r) == value_models(*items),
        r.len() == items.len(),
        forall|j: int| 0 <= j < r.len() ==> r[j]@ == items[j]@,
    decreases items,
{
    let mut out: Vec<FasValue> = Vec::new();
    let mut i: usize = 0;
    while i < items.len()
        invariant
            i <= items.len(),
            out.len() == i,
            forall|j: int| 0 <= j < i ==> out[j]@ == items[j]@,
        decreases items.len() - i,
    {
        out.push(copy_value(&items[i]));
        i = i + 1;
    }
    proof {
        assert(value_models(out) =~= value_models(*items));
    }
    out
}

fn copy_int_entries(entries: &Vec<(i64, FasValue)>) -> (r: Vec<(i64, FasValue)>)
    ensures
        r.len() == entries.len(),
        forall|j: int| 0 <= j < r.len() ==> r[j].0 == entries[j].0 && r[j].1@ == entries[j].1@,
    decreases entries,
{
    let mut out: Vec<(i64, FasValue)> = Vec::new();
    let mut i: usize = 0;
    while i < entries.len()
        invariant
            i <= entries.len(),
            out.len() == i,
            forall|j: int| 0 <= j < i ==> out[j].0 == entries[j].0 && out[j].1@ == entries[j].1@,
        decreases entries.len() - i,
    {
        let entry = &entries[i];
        out.push((entry.0, copy_value(&entry.1)));
        i = i + 1;
    }
    out
}

fn copy_str_entries(entries: &Vec<(String, FasValue)>) -> (r: Vec<(String, FasValue)>)
    ensures
        r.len() == entries.len(),
        forall|j: int| 0 <= j < r.len() ==> r[j].0@ == entries[j].0@ && r[j].1@ == entries[j].1@,
    decreases entries,
{
    let mut out: Vec<(String, FasValue)> = Vec::new();
    let mut i: usize = 0;
    while i < entries.len()
        invariant
            i <= entries.len(),
            out.len() == i,
            forall|j: int| 0 <= j < i ==> out[j].0@ == entries[j].0@ && out[j].1@ == entries[j].1@,
        decreases entries.len() - i,
    {
        let entry = &entries[i];
        out.push((entry.0.clone(), copy_value(&entry.1)));
        i = i + 1;
    }
    out
}

/// A copy of the value. The copy of a task is another handle on the same
/// task.
pub fn copy_value(v: &FasValue) -> (r: FasValue)
    ensures
        r@ == v@,
    decreases v,
{
    match v {
        FasValue::Null => FasValue::Null,
        FasValue::Bool(b) => FasValue::Bool(*b),
        FasValue::Int(i) => FasValue::Int(*i),
        FasValue::Float(f) => FasValue::Float(*f),
        FasValue::String(s) => FasValue::String(s.clone()),
        FasValue::Array(items) => {
            let r = FasValue::Array(copy_values(items));
            proof {
                assert(r@->Array_0 =~= v@->Array_0);
            }
            r
        },
        FasValue::IMap(entries) => {
            let r = FasValue::IMap(copy_int_entries(entries));
            proof {
                assert(r@->IMap_0 =~= v@->IMap_0);
            }
            r
        },
        FasValue::SMap(entries) => {
            let r = FasValue::SMap(copy_str_entries(entries));
            proof {
                assert(r@->SMap_0 =~= v@->SMap_0);
            }
            r
        },
        FasValue::Func(f) => FasValue::Func(Box::new((&**f).clone())),
        FasValue::Task(t) => FasValue::Task(t.clone()),
    }
}

impl Clone for FasValue {
    fn clone(&self) -> (r: Self)
        ensures
            r@ == self@,
    {
        copy_value(self)
    }
}

/// The models of the entries of an integer-keyed map, in order.
pub open spec fn int_entry_models(entries: Vec<(i64, FasValue)>) -> Seq<(int, ValueModel)> {
    Seq::new(entries.len() as nat, |i: int| (entries[i].0 as int, entries[i].1@))
}

/// The models of the entries of a string-keyed map, in order.
pub open spec fn str_entry_models(entries: Vec<(String, FasValue)>) -> Seq<
    (Seq<char>, ValueModel),
> {
    Seq::new(entries.len() as nat, |i: int| (entries[i].0@, entries[i].1@))
}

/// The parts with `sep` between each two of them.
pub open spec fn join(parts: Seq<Seq<char>>, sep: Seq<char>) -> Seq<char>
    decreases parts.len(),
{
    if parts.len() == 0 {
        Seq::empty()
    } else if parts.len() == 1 {
        parts[0]
    } else {
        join(parts.drop_last(), sep) + sep + parts.last()
    }
}

/// The separator of the items of a container: a comma and a space.
pub open spec fn item_sep() -> Seq<char> {
    seq![',', ' ']
}

/// The separator of a key and its value: a colon and a space.
pub open spec fn key_sep() -> Seq<char> {
    seq![':', ' ']
}

/// The texts of the values, in order.
pub open spec fn item_texts(items: Seq<ValueModel>) -> Seq<Seq<char>>
    decreases items,
{
    Seq::new(
        items.len(),
        |i: int|
            if 0 <= i < items.len() {
                items[i].text()
            } else {
                Seq::empty()
            },
    )
}

/// The texts of the entries of an integer-keyed map, in order.
pub open spec fn int_entry_texts(entries: Seq<(int, ValueModel)>) -> Seq<Seq<char>>
    decreases entries,
{
    Seq::new(
        entries.len(),
        |i: int|
            if 0 <= i < entries.len() {
                int_text(entries[i].0) + key_sep() + entries[i].1.text()
            } else {
                Seq::empty()
            },
    )
}

/// The texts of the entries of a string-keyed map, in order.
pub open spec fn str_entry_texts(entries: Seq<(Seq<char>, ValueModel)>) -> Seq<Seq<char>>
    decreases entries,
{
    Seq::new(
        entries.len(),
        |i: int|
            if 0 <= i < entries.len() {
                entries[i].0 + key_sep() + entries[i].1.text()
            } else {
                Seq::empty()
            },
    )
}

impl ValueModel {
    /// In every map of the value, however deep, a key occurs once.
    pub open spec fn well_formed(self) -> bool
        decreases self,
    {
        match self {
            ValueModel::Array(items) => items_well_formed(items),
            ValueModel::IMap(entries) => int_entries_well_formed(entries) && keys_differ(
                int_keys(entries),
            ),
            ValueModel::SMap(entries) => str_entries_well_formed(entries) && keys_differ(
                str_keys(entries),
            ),
            _ => true,
        }
    }

    /// The type that the value's shape shows. An array has the type of its
    /// first item, a map that of its last value; an empty container shows
    /// no item type.
    pub open spec fn type_of(self) -> AstType
        decreases self,
    {
        match self {
            ValueModel::Null => AstType::Void,
            ValueModel::Bool(_) => AstType::Bool,
            ValueModel::Int(_) => AstType::Int,
            ValueModel::Float(_) => AstType::Float,
            ValueModel::Str(_) => AstType::String,
            ValueModel::Array(items) => AstArrayType::of(
                if items.len() == 0 {
                    AstType::Unknown
                } else {
                    items[0].type_of()
                },
            ),
            ValueModel::IMap(entries) => AstMapType::of(
                AstType::Int,
                if entries.len() == 0 {
                    AstType::Unknown
                } else {
                    entries[entries.len() - 1].1.type_of()
                },
            ),
            ValueModel::SMap(entries) => AstMapType::of(
                AstType::String,
                if entries.len() == 0 {
                    AstType::Unknown
                } else {
                    entries[entries.len() - 1].1.type_of()
                },
            ),
            ValueModel::Func(f) => AstFuncType::of(f.arity() as usize),
            ValueModel::Task(_) => AstType::Task,
        }
    }

    /// The text by which the value is printed.
    pub open spec fn text(self) -> Seq<char>
        decreases self,
    {
        match self {
            ValueModel::Null => seq!['(', 'n', 'u', 'l', 'l', ')'],
            ValueModel::Bool(b) => if b {
                seq!['t', 'r', 'u', 'e']
            } else {
                seq!['f', 'a', 'l', 's', 'e']
            },
            ValueModel::Int(i) => int_text(i),
            ValueModel::Float(bits) => FasFloat { bits }.text(),
            ValueModel::Str(s) => s,
            ValueModel::Array(items) => seq!['[', ' '] + join(item_texts(items), item_sep())
                + seq![' ', ']'],
            ValueModel::IMap(entries) => seq!['{', ' '] + join(
                int_entry_texts(entries),
                item_sep(),
            ) + seq![' ', '}'],
            ValueModel::SMap(entries) => seq!['{', ' '] + join(
                str_entry_texts(entries),
                item_sep(),
            ) + seq![' ', '}'],
            ValueModel::Func(_) => seq!['(', 'f', 'u', 'n', 'c', ')'],
            ValueModel::Task(_) => seq!['(', 't', 'a', 's', 'k', ')'],
        }
    }

    /// What `==` means. Scalars of one kind are equal when they hold the
    /// same, floats when they are within one millionth. Arrays are equal
    /// item by item; maps when they have as many entries and each entry of
    /// either has an equal one under the same key in the other.
    /// Functions and tasks equal nothing, not even themselves, and values
    /// of different kinds are never equal.
    pub open spec fn equals(self, other: ValueModel) -> bool
        decreases self,
    {
        match (self, other) {
            (ValueModel::Null, ValueModel::Null) => true,
            (ValueModel::Bool(a), ValueModel::Bool(b)) => a == b,
            (ValueModel::Int(a), ValueModel::Int(b)) => a == b,
            (ValueModel::Float(a), ValueModel::Float(b)) => FasFloat { bits: a }.close(
                FasFloat { bits: b },
            ),
            (ValueModel::Str(a), ValueModel::Str(b)) => a == b,
            (ValueModel::Array(a), ValueModel::Array(b)) => a.len() == b.len() && items_equal(a, b),
            (ValueModel::IMap(a), ValueModel::IMap(b)) => a.len() == b.len() && int_entries_found(
                a,
                b,
            ) && int_entries_reached(a, b),
            (ValueModel::SMap(a), ValueModel::SMap(b)) => a.len() == b.len() && str_entries_found(
                a,
                b,
            ) && str_entries_reached(a, b),
            _ => false,
        }
    }

    /// The value as a value of type `dest`, where there is such a
    /// conversion. A value that has the type already stays as it is, and
    /// so does any value turned into a dynamic one. Any value becomes a
    /// string, its text. A scalar becomes a boolean, an integer or a float
    /// as [`bool_of`], [`int_of`] and [`float_of`] say. An array becomes an
    /// array item by item, a map a map of the same keys value by value.
    /// Turned into nothing, a value is null. There is no other conversion.
    pub open spec fn converted(self, dest: AstType) -> Option<ValueModel>
        decreases self,
    {
        if self.type_of() == dest {
            Some(self)
        } else {
            match dest {
                AstType::Unknown => Some(ValueModel::Null),
                AstType::Void => Some(ValueModel::Null),
                AstType::Dynamic => Some(self),
                AstType::String => Some(ValueModel::Str(self.text())),
                AstType::Bool => match bool_of(self) {
                    Some(b) => Some(ValueModel::Bool(b)),
                    None => None,
                },
                AstType::Float => match float_of(self) {
                    Some(bits) => Some(ValueModel::Float(bits)),
                    None => None,
                },
                AstType::Int => match int_of(self) {
                    Some(i) => Some(ValueModel::Int(i)),
                    None => None,
                },
                AstType::Array(array) => match self {
                    ValueModel::Array(items) => match converted_items(items, *array.base_type) {
                        Some(out) => Some(ValueModel::Array(out)),
                        None => None,
                    },
                    _ => None,
                },
                AstType::Mapping(map) => match self {
                    ValueModel::IMap(entries) => if *map.key_type == AstType::Int {
                        match converted_int_entries(entries, *map.value_type) {
                            Some(out) => Some(ValueModel::IMap(out)),
                            None => None,
                        }
                    } else {
                        None
                    },
                    ValueModel::SMap(entries) => if *map.key_type == AstType::String {
                        match converted_str_entries(entries, *map.value_type) {
                            Some(out) => Some(ValueModel::SMap(out)),
                            None => None,
                        }
                    } else {
                        None
                    },
                    _ => None,
                },
                _ => None,
            }
        }
    }
}

/// The boolean that a scalar stands for: nothing is false; a number is
/// true unless it is zero; a string is true or false as it reads `true` or
/// `false`, and no boolean otherwise. What is no scalar is no boolean.
pub open spec fn bool_of(v: ValueModel) -> Option<bool> {
    match v {
        ValueModel::Null => Some(false),
        ValueModel::Bool(b) => Some(b),
        ValueModel::Int(n) => Some(n != 0),
        ValueModel::Float(bits) => Some(!FasFloat { bits }.zero()),
        ValueModel::Str(s) => if s == "true"@ {
            Some(true)
        } else if s == "false"@ {
            Some(false)
        } else {
            None
        },
        _ => None,
    }
}

/// The integer that a scalar stands for: nothing is zero; true is one and
/// false zero; a float is the nearest integer, a half rounded away from
/// zero; a string is the integer whose decimal notation it is, and no
/// integer if it is none or the integer has no 64 bits. What is no scalar
/// is no integer.
pub open spec fn int_of(v: ValueModel) -> Option<int> {
    match v {
        ValueModel::Null => Some(0),
        ValueModel::Bool(b) => Some(
            if b {
                1
            } else {
                0
            },
        ),
        ValueModel::Int(n) => Some(n),
        ValueModel::Float(bits) => Some(FasFloat { bits }.rounded()),
        ValueModel::Str(s) => match i64_of(s) {
            Some(i) => Some(i as int),
            None => None,
        },
        _ => None,
    }
}

/// The float, as its bits, that a scalar stands for: nothing is zero; true
/// is one and false zero; an integer is the nearest float; a string is the
/// float that it reads as, see [`float_of_text`]. What is no scalar is no
/// float.
pub open spec fn float_of(v: ValueModel) -> Option<u64> {
    match v {
        ValueModel::Null => Some(0),
        ValueModel::Bool(b) => Some(
            FasFloat::nearest(
                if b {
                    1
                } else {
                    0
                },
            ).bits,
        ),
        ValueModel::Int(n) => Some(FasFloat::nearest(n).bits),
        ValueModel::Float(bits) => Some(bits),
        ValueModel::Str(s) => float_of_text(s),
        _ => None,
    }
}

/// No two of the keys are the same.
pub open spec fn keys_differ<K>(keys: Seq<K>) -> bool {
    forall|i: int, j: int| 0 <= i < j < keys.len() ==> keys[i] != keys[j]
}

/// Every item is well formed.
pub open spec fn items_well_formed(items: Seq<ValueModel>) -> bool
    decreases items,
{
    forall|i: int| 0 <= i < items.len() ==> (#[trigger] items[i]).well_formed()
}

/// Every value of the map is well formed.
pub open spec fn int_entries_well_formed(entries: Seq<(int, ValueModel)>) -> bool
    decreases entries,
{
    forall|i: int| 0 <= i < entries.len() ==> (#[trigger] entries[i]).1.well_formed()
}

/// Every value of the map is well formed.
pub open spec fn str_entries_well_formed(entries: Seq<(Seq<char>, ValueModel)>) -> bool
    decreases entries,
{
    forall|i: int| 0 <= i < entries.len() ==> (#[trigger] entries[i]).1.well_formed()
}

/// An integer of at most 53 binary digits that is converted to a float and
/// back is the integer again.
pub proof fn lemma_int_survives_float(i: int)
    requires
        -0x0020_0000_0000_0000 < i < 0x0020_0000_0000_0000,
    ensures
        ValueModel::Int(i).converted(AstType::Float) matches Some(f) && f.converted(AstType::Int)
            == Some(ValueModel::Int(i)),
{
    crate::float::lemma_nearest_is_exact(i);
    let f = ValueModel::Int(i).converted(AstType::Float)->Some_0;
    assert(f == ValueModel::Float(FasFloat::nearest(i).bits));
    assert(FasFloat { bits: FasFloat::nearest(i).bits } == FasFloat::nearest(i));
}

/// A conversion keeps a value well formed: the keys of a map stay as they
/// are, and what a value is converted to has no map that the value has
/// not.
pub proof fn lemma_conversion_keeps_well_formed(v: ValueModel, dest: AstType)
    requires
        v.well_formed(),
        v.converted(dest) is Some,
    ensures
        v.converted(dest)->Some_0.well_formed(),
    decreases v,
{
    let out = v.converted(dest)->Some_0;
    if v.type_of() == dest {
    } else {
        match dest {
            AstType::Array(array) => {
                match v {
                    ValueModel::Array(items) => {
                        let done = converted_items(items, *array.base_type)->Some_0;
                        assert forall|i: int| 0 <= i < done.len() implies (#[trigger] done[i]).well_formed() by {
                            assert(items[i].well_formed());
                            lemma_conversion_keeps_well_formed(items[i], *array.base_type);
                        }
                    },
                    _ => {},
                }
            },
            AstType::Mapping(map) => {
                match v {
                    ValueModel::IMap(entries) => {
                        let done = converted_int_entries(entries, *map.value_type)->Some_0;
                        assert forall|i: int| 0 <= i < done.len() implies (#[trigger] done[i]).1.well_formed() by {
                            assert(entries[i].1.well_formed());
                            lemma_conversion_keeps_well_formed(entries[i].1, *map.value_type);
                        }
                        assert(int_keys(done) =~= int_keys(entries));
                    },
                    ValueModel::SMap(entries) => {
                        let done = converted_str_entries(entries, *map.value_type)->Some_0;
                        assert forall|i: int| 0 <= i < done.len() implies (#[trigger] done[i]).1.well_formed() by {
                            assert(entries[i].1.well_formed());
                            lemma_conversion_keeps_well_formed(entries[i].1, *map.value_type);
                        }
                        assert(str_keys(done) =~= str_keys(entries));
                    },
                    _ => {},
                }
            },
            _ => {},
        }
    }
}

/// Item by item, the first sequence equals the second, as far as the first
/// goes.
pub open spec fn items_equal(a: Seq<ValueModel>, b: Seq<ValueModel>) -> bool
    decreases a,
{
    forall|i: int| 0 <= i < a.len() ==> (#[trigger] a[i]).equals(b[i])
}

/// Each entry of the first map has an equal one under the same key in the
/// second.
pub open spec fn int_entries_found(a: Seq<(int, ValueModel)>, b: Seq<(int, ValueModel)>) -> bool
    decreases a,
{
    forall|i: int| 0 <= i < a.len() ==> int_entry_found(#[trigger] a[i], b)
}

/// The second map has an entry under the key of `entry` with an equal
/// value.
pub open spec fn int_entry_found(entry: (int, ValueModel), b: Seq<(int, ValueModel)>) -> bool
    decreases entry,
{
    exists|j: int| 0 <= j < b.len() && (#[trigger] b[j]).0 == entry.0 && entry.1.equals(b[j].1)
}

/// Each entry of the first map has an equal one under the same key in the
/// second.
pub open spec fn str_entries_found(
    a: Seq<(Seq<char>, ValueModel)>,
    b: Seq<(Seq<char>, ValueModel)>,
) -> bool
    decreases a,
{
    forall|i: int| 0 <= i < a.len() ==> str_entry_found(#[trigger] a[i], b)
}

/// The second map has an entry under the key of `entry` with an equal
/// value.
pub open spec fn str_entry_found(
    entry: (Seq<char>, ValueModel),
    b: Seq<(Seq<char>, ValueModel)>,
) -> bool
    decreases entry,
{
    exists|j: int| 0 <= j < b.len() && (#[trigger] b[j]).0 == entry.0 && entry.1.equals(b[j].1)
}

/// Each entry of the second map has an equal one under the same key in the
/// first.
pub open spec fn int_entries_reached(a: Seq<(int, ValueModel)>, b: Seq<(int, ValueModel)>) -> bool
    decreases a, 1nat,
{
    forall|j: int| 0 <= j < b.len() ==> int_entry_reached(a, #[trigger] b[j])
}

/// The first map has an entry under the key of `entry` with a value that
/// equals its value.
pub open spec fn int_entry_reached(a: Seq<(int, ValueModel)>, entry: (int, ValueModel)) -> bool
    decreases a, 0nat,
{
    exists|i: int| 0 <= i < a.len() && (#[trigger] a[i]).0 == entry.0 && a[i].1.equals(entry.1)
}

/// Each entry of the second map has an equal one under the same key in the
/// first.
pub open spec fn str_entries_reached(
    a: Seq<(Seq<char>, ValueModel)>,
    b: Seq<(Seq<char>, ValueModel)>,
) -> bool
    decreases a, 1nat,
{
    forall|j: int| 0 <= j < b.len() ==> str_entry_reached(a, #[trigger] b[j])
}

/// The first map has an entry under the key of `entry` with a value that
/// equals its value.
pub open spec fn str_entry_reached(
    a: Seq<(Seq<char>, ValueModel)>,
    entry: (Seq<char>, ValueModel),
) -> bool
    decreases a, 0nat,
{
    exists|i: int| 0 <= i < a.len() && (#[trigger] a[i]).0 == entry.0 && a[i].1.equals(entry.1)
}

/// The items converted one by one, if each can be.
pub open spec fn converted_items(items: Seq<ValueModel>, dest: AstType) -> Option<Seq<ValueModel>>
    decreases items,
{
    if forall|i: int| 0 <= i < items.len() ==> (#[trigger] items[i]).converted(dest) is Some {
        Some(
            Seq::new(
                items.len(),
                |i: int|
                    if 0 <= i < items.len() {
                        items[i].converted(dest)->Some_0
                    } else {
                        ValueModel::Null
                    },
            ),
        )
    } else {
        None
    }
}

/// The entries with their values converted one by one, if each can be.
pub open spec fn converted_int_entries(entries: Seq<(int, ValueModel)>, dest: AstType) -> Option<
    Seq<(int, ValueModel)>,
>
    decreases entries,
{
    if forall|i: int|
        0 <= i < entries.len() ==> (#[trigger] entries[i]).1.converted(dest) is Some {
        Some(
            Seq::new(
                entries.len(),
                |i: int|
                    if 0 <= i < entries.len() {
                        (entries[i].0, entries[i].1.converted(dest)->Some_0)
                    } else {
                        (0, ValueModel::Null)
                    },
            ),
        )
    } else {
        None
    }
}

/// The entries with their values converted one by one, if each can be.
pub open spec fn converted_str_entries(
    entries: Seq<(Seq<char>, ValueModel)>,
    dest: AstType,
) -> Option<Seq<(Seq<char>, ValueModel)>>
    decreases entries,
{
    if forall|i: int|
        0 <= i < entries.len() ==> (#[trigger] entries[i]).1.converted(dest) is Some {
        Some(
            Seq::new(
                entries.len(),
                |i: int|
                    if 0 <= i < entries.len() {
                        (entries[i].0, entries[i].1.converted(dest)->Some_0)
                    } else {
                        (Seq::empty(), ValueModel::Null)
                    },
            ),
        )
    } else {
        None
    }
}

/// Why a value could not be converted.
#[derive(Clone, Copy, Debug, PartialEq, Eq, Structural)]
pub enum ConversionError {
    /// There is no conversion of the value to the type asked for.
    Unsupported,
}

/// The result holds the model, or is an error where there is none.
pub open spec fn conversion_is(
    r: Result<FasValue, ConversionError>,
    expected: Option<ValueModel>,
) -> bool {
    match expected {
        Some(m) => r is Ok && r->Ok_0@ == m,
        None => r is Err,
    }
}

/// Whether the two values are equal, as [`ValueModel::equals`] says.
pub fn values_equal(a: &FasValue, b: &FasValue) -> (r: bool)
    ensures
        r == a@.equals(b@),
    decreases a,
{
    match (a, b) {
        (FasValue::Null, FasValue::Null) => true,
        (FasValue::Bool(x), FasValue::Bool(y)) => *x == *y,
        (FasValue::Int(x), FasValue::Int(y)) => *x == *y,
        (FasValue::Float(x), FasValue::Float(y)) => x.close_to(y),
        (FasValue::String(x), FasValue::String(y)) => *x == *y,
        (FasValue::Array(x), FasValue::Array(y)) => {
            proof {
                assert(a@->Array_0 =~= value_models(*x));
                assert(b@->Array_0 =~= value_models(*y));
            }
            x.len() == y.len() && arrays_equal(x, y)
        },
        (FasValue::IMap(x), FasValue::IMap(y)) => {
            proof {
                assert(a@->IMap_0 =~= int_entry_models(*x));
                assert(b@->IMap_0 =~= int_entry_models(*y));
            }
            x.len() == y.len() && int_entries_covered(x, y) && int_entries_reach(x, y)
        },
        (FasValue::SMap(x), FasValue::SMap(y)) => {
            proof {
                assert(a@->SMap_0 =~= str_entry_models(*x));
                assert(b@->SMap_0 =~= str_entry_models(*y));
            }
            x.len() == y.len() && str_entries_covered(x, y) && str_entries_reach(x, y)
        },
        _ => false,
    }
}

fn arrays_equal(x: &Vec<FasValue>, y: &Vec<FasValue>) -> (r: bool)
    requires
        x.len() == y.len(),
    ensures
        r == items_equal(value_models(*x), value_models(*y)),
    decreases x,
{
    let mut i: usize = 0;
    let ghost xs = value_models(*x);
    let ghost ys = value_models(*y);
    while i < x.len()
        invariant
            i <= x.len(),
            x.len() == y.len(),
            xs == value_models(*x),
            ys == value_models(*y),
            forall|j: int| 0 <= j < i ==> (#[trigger] xs[j]).equals(ys[j]),
        decreases x.len() - i,
    {
        if !values_equal(&x[i], &y[i]) {
            proof {
                assert(!xs[i as int].equals(ys[i as int]));
            }
            return false;
        }
        i = i + 1;
    }
    true
}

fn int_entries_covered(x: &Vec<(i64, FasValue)>, y: &Vec<(i64, FasValue)>) -> (r: bool)
    ensures
        r == int_entries_found(int_entry_models(*x), int_entry_models(*y)),
    decreases x,
{
    let ghost xs = int_entry_models(*x);
    let ghost ys = int_entry_models(*y);
    let mut i: usize = 0;
    while i < x.len()
        invariant
            i <= x.len(),
            xs == int_entry_models(*x),
            ys == int_entry_models(*y),
            forall|k: int| 0 <= k < i ==> int_entry_found(#[trigger] xs[k], ys),
        decreases x.len() - i,
    {
        let mut found = false;
        let mut j: usize = 0;
        while j < y.len() && !found
            invariant
                j <= y.len(),
                i < x.len(),
                xs == int_entry_models(*x),
                ys == int_entry_models(*y),
                found ==> int_entry_found(xs[i as int], ys),
                !found ==> forall|k: int|
                    0 <= k < j ==> !((#[trigger] ys[k]).0 == xs[i as int].0 && xs[i as int].1.equals(
                        ys[k].1,
                    )),
            decreases y.len() - j + (if found { 0int } else { 1int }),
        {
            if y[j].0 == x[i].0 && values_equal(&x[i].1, &y[j].1) {
                found = true;
                proof {
                    assert(ys[j as int].0 == xs[i as int].0 && xs[i as int].1.equals(ys[j as int].1));
                }
            } else {
                j = j + 1;
            }
        }
        if !found {
            proof {
                assert(!int_entry_found(xs[i as int], ys));
            }
            return false;
        }
        i = i + 1;
    }
    true
}

fn str_entries_covered(x: &Vec<(String, FasValue)>, y: &Vec<(String, FasValue)>) -> (r: bool)
    ensures
        r == str_entries_found(str_entry_models(*x), str_entry_models(*y)),
    decreases x,
{
    let ghost xs = str_entry_models(*x);
    let ghost ys = str_entry_models(*y);
    let mut i: usize = 0;
    while i < x.len()
        invariant
            i <= x.len(),
            xs == str_entry_models(*x),
            ys == str_entry_models(*y),
            forall|k: int| 0 <= k < i ==> str_entry_found(#[trigger] xs[k], ys),
        decreases x.len() - i,
    {
        let mut found = false;
        let mut j: usize = 0;
        while j < y.len() && !found
            invariant
                j <= y.len(),
                i < x.len(),
                xs == str_entry_models(*x),
                ys == str_entry_models(*y),
                found ==> str_entry_found(xs[i as int], ys),
                !found ==> forall|k: int|
                    0 <= k < j ==> !((#[trigger] ys[k]).0 == xs[i as int].0 && xs[i as int].1.equals(
                        ys[k].1,
                    )),
            decreases y.len() - j + (if found { 0int } else { 1int }),
        {
            if y[j].0 == x[i].0 && values_equal(&x[i].1, &y[j].1) {
                found = true;
                proof {
                    assert(ys[j as int].0 == xs[i as int].0 && xs[i as int].1.equals(ys[j as int].1));
                }
            } else {
                j = j + 1;
            }
        }
        if !found {
            proof {
                assert(!str_entry_found(xs[i as int], ys));
            }
            return false;
        }
        i = i + 1;
    }
    true
}

fn int_entries_reach(x: &Vec<(i64, FasValue)>, y: &Vec<(i64, FasValue)>) -> (r: bool)
    ensures
        r == int_entries_reached(int_entry_models(*x), int_entry_models(*y)),
    decreases x,
{
    let ghost xs = int_entry_models(*x);
    let ghost ys = int_entry_models(*y);
    let mut j: usize = 0;
    while j < y.len()
        invariant
            j <= y.len(),
            xs == int_entry_models(*x),
            ys == int_entry_models(*y),
            forall|k: int| 0 <= k < j ==> int_entry_reached(xs, #[trigger] ys[k]),
        decreases y.len() - j,
    {
        let mut found = false;
        let mut i: usize = 0;
        while i < x.len() && !found
            invariant
                i <= x.len(),
                j < y.len(),
                xs == int_entry_models(*x),
                ys == int_entry_models(*y),
                found ==> int_entry_reached(xs, ys[j as int]),
                !found ==> forall|k: int|
                    0 <= k < i ==> !((#[trigger] xs[k]).0 == ys[j as int].0 && xs[k].1.equals(
                        ys[j as int].1,
                    )),
            decreases x.len() - i + (if found { 0int } else { 1int }),
        {
            if x[i].0 == y[j].0 && values_equal(&x[i].1, &y[j].1) {
                found = true;
                proof {
                    assert(xs[i as int].0 == ys[j as int].0 && xs[i as int].1.equals(ys[j as int].1));
                }
            } else {
                i = i + 1;
            }
        }
        if !found {
            proof {
                assert(!int_entry_reached(xs, ys[j as int]));
            }
            return false;
        }
        j = j + 1;
    }
    true
}

fn str_entries_reach(x: &Vec<(String, FasValue)>, y: &Vec<(String, FasValue)>) -> (r: bool)
    ensures
        r == str_entries_reached(str_entry_models(*x), str_entry_models(*y)),
    decreases x,
{
    let ghost xs = str_entry_models(*x);
    let ghost ys = str_entry_models(*y);
    let mut j: usize = 0;
    while j < y.len()
        invariant
            j <= y.len(),
            xs == str_entry_models(*x),
            ys == str_entry_models(*y),
            forall|k: int| 0 <= k < j ==> str_entry_reached(xs, #[trigger] ys[k]),
        decreases y.len() - j,
    {
        let mut found = false;
        let mut i: usize = 0;
        while i < x.len() && !found
            invariant
                i <= x.len(),
                j < y.len(),
                xs == str_entry_models(*x),
                ys == str_entry_models(*y),
                found ==> str_entry_reached(xs, ys[j as int]),
                !found ==> forall|k: int|
                    0 <= k < i ==> !((#[trigger] xs[k]).0 == ys[j as int].0 && xs[k].1.equals(
                        ys[j as int].1,
                    )),
            decreases x.len() - i + (if found { 0int } else { 1int }),
        {
            if x[i].0 == y[j].0 && values_equal(&x[i].1, &y[j].1) {
                found = true;
                proof {
                    assert(xs[i as int].0 == ys[j as int].0 && xs[i as int].1.equals(ys[j as int].1));
                }
            } else {
                i = i + 1;
            }
        }
        if !found {
            proof {
                assert(!str_entry_reached(xs, ys[j as int]));
            }
            return false;
        }
        j = j + 1;
    }
    true
}

impl PartialEq for FasValue {
    fn eq(&self, other: &Self) -> (same: bool) {
        values_equal(self, other)
    }
}

impl PartialEqSpecImpl for FasValue {
    open spec fn obeys_eq_spec() -> bool {
        true
    }

    open spec fn eq_spec(&self, other: &Self) -> bool {
        self@.equals(other@)
    }
}

impl Eq for FasValue {}

/// `==` does not depend on the order of the two values.
pub proof fn lemma_equality_is_symmetric(a: ValueModel, b: ValueModel)
    ensures
        a.equals(b) == b.equals(a),
    decreases a,
{
    match (a, b) {
        (ValueModel::Float(x), ValueModel::Float(y)) => {
            crate::float::lemma_close_is_symmetric(FasFloat { bits: x }, FasFloat { bits: y });
        },
        (ValueModel::Array(xs), ValueModel::Array(ys)) => {
            if xs.len() == ys.len() {
                assert forall|i: int| 0 <= i < xs.len() implies (#[trigger] xs[i]).equals(ys[i])
                    == ys[i].equals(xs[i]) by {
                    lemma_equality_is_symmetric(xs[i], ys[i]);
                }
                if items_equal(xs, ys) {
                    assert forall|i: int| 0 <= i < ys.len() implies (#[trigger] ys[i]).equals(
                        xs[i],
                    ) by {
                        assert(xs[i].equals(ys[i]));
                    }
                }
                if items_equal(ys, xs) {
                    assert forall|i: int| 0 <= i < xs.len() implies (#[trigger] xs[i]).equals(
                        ys[i],
                    ) by {
                        assert(ys[i].equals(xs[i]));
                    }
                }
            }
        },
        (ValueModel::IMap(xs), ValueModel::IMap(ys)) => {
            assert forall|i: int, j: int|
                0 <= i < xs.len() && 0 <= j < ys.len() implies (#[trigger] xs[i]).1.equals(
                (#[trigger] ys[j]).1,
            ) == ys[j].1.equals(xs[i].1) by {
                lemma_equality_is_symmetric(xs[i].1, ys[j].1);
            }
            assert forall|k: int| 0 <= k < xs.len() implies int_entry_found(#[trigger] xs[k], ys)
                == int_entry_reached(ys, xs[k]) by {
                if int_entry_found(xs[k], ys) {
                    let j = choose|j: int|
                        0 <= j < ys.len() && (#[trigger] ys[j]).0 == xs[k].0 && xs[k].1.equals(
                            ys[j].1,
                        );
                    assert(ys[j].0 == xs[k].0 && ys[j].1.equals(xs[k].1));
                }
                if int_entry_reached(ys, xs[k]) {
                    let j = choose|j: int|
                        0 <= j < ys.len() && (#[trigger] ys[j]).0 == xs[k].0 && ys[j].1.equals(
                            xs[k].1,
                        );
                    assert(ys[j].0 == xs[k].0 && xs[k].1.equals(ys[j].1));
                }
            }
            assert forall|k: int| 0 <= k < ys.len() implies int_entry_reached(xs, #[trigger] ys[k])
                == int_entry_found(ys[k], xs) by {
                if int_entry_reached(xs, ys[k]) {
                    let i = choose|i: int|
                        0 <= i < xs.len() && (#[trigger] xs[i]).0 == ys[k].0 && xs[i].1.equals(
                            ys[k].1,
                        );
                    assert(xs[i].0 == ys[k].0 && ys[k].1.equals(xs[i].1));
                }
                if int_entry_found(ys[k], xs) {
                    let i = choose|i: int|
                        0 <= i < xs.len() && (#[trigger] xs[i]).0 == ys[k].0 && ys[k].1.equals(
                            xs[i].1,
                        );
                    assert(xs[i].0 == ys[k].0 && xs[i].1.equals(ys[k].1));
                }
            }
            assert(int_entries_found(xs, ys) == int_entries_reached(ys, xs));
            assert(int_entries_reached(xs, ys) == int_entries_found(ys, xs));
        },
        (ValueModel::SMap(xs), ValueModel::SMap(ys)) => {
            assert forall|i: int, j: int|
                0 <= i < xs.len() && 0 <= j < ys.len() implies (#[trigger] xs[i]).1.equals(
                (#[trigger] ys[j]).1,
            ) == ys[j].1.equals(xs[i].1) by {
                lemma_equality_is_symmetric(xs[i].1, ys[j].1);
            }
            assert forall|k: int| 0 <= k < xs.len() implies str_entry_found(#[trigger] xs[k], ys)
                == str_entry_reached(ys, xs[k]) by {
                if str_entry_found(xs[k], ys) {
                    let j = choose|j: int|
                        0 <= j < ys.len() && (#[trigger] ys[j]).0 == xs[k].0 && xs[k].1.equals(
                            ys[j].1,
                        );
                    assert(ys[j].0 == xs[k].0 && ys[j].1.equals(xs[k].1));
                }
                if str_entry_reached(ys, xs[k]) {
                    let j = choose|j: int|
                        0 <= j < ys.len() && (#[trigger] ys[j]).0 == xs[k].0 && ys[j].1.equals(
                            xs[k].1,
                        );
                    assert(ys[j].0 == xs[k].0 && xs[k].1.equals(ys[j].1));
                }
            }
            assert forall|k: int| 0 <= k < ys.len() implies str_entry_reached(xs, #[trigger] ys[k])
                == str_entry_found(ys[k], xs) by {
                if str_entry_reached(xs, ys[k]) {
                    let i = choose|i: int|
                        0 <= i < xs.len() && (#[trigger] xs[i]).0 == ys[k].0 && xs[i].1.equals(
                            ys[k].1,
                        );
                    assert(xs[i].0 == ys[k].0 && ys[k].1.equals(xs[i].1));
                }
                if str_entry_found(ys[k], xs) {
                    let i = choose|i: int|
                        0 <= i < xs.len() && (#[trigger] xs[i]).0 == ys[k].0 && ys[k].1.equals(
                            xs[i].1,
                        );
                    assert(xs[i].0 == ys[k].0 && xs[i].1.equals(ys[k].1));
                }
            }
            assert(str_entries_found(xs, ys) == str_entries_reached(ys, xs));
            assert(str_entries_reached(xs, ys) == str_entries_found(ys, xs));
        },
        _ => {},
    }
}

/// Of two scalars of one kind, `==` holds exactly when they hold the same,
/// of two floats when they are finite and within one millionth of each
/// other. A function or a task equals no function and no task.
pub proof fn lemma_equality_of_kinds(a: ValueModel, b: ValueModel)
    ensures
        a is Null && b is Null ==> a.equals(b),
        a is Bool && b is Bool ==> a.equals(b) == (a->Bool_0 == b->Bool_0),
        a is Int && b is Int ==> a.equals(b) == (a->Int_0 == b->Int_0),
        a is Str && b is Str ==> a.equals(b) == (a->Str_0 == b->Str_0),
        a is Float && b is Float ==> a.equals(b) == (FasFloat { bits: a->Float_0 }.close(
            FasFloat { bits: b->Float_0 },
        )),
        a is Func && b is Func ==> !a.equals(b),
        a is Task && b is Task ==> !a.equals(b),
{
}

/// Appends the parts' texts to `out`, with `", "` between them.
fn push_sep(out: &mut String, first: bool)
    ensures
        final(out)@ == old(out)@ + (if first {
            Seq::<char>::empty()
        } else {
            item_sep()
        }),
{
    proof {
        reveal_strlit(", ");
    }
    if !first {
        out.append(", ");
        assert(out@ =~= old(out)@ + item_sep());
    } else {
        assert(out@ =~= old(out)@ + Seq::<char>::empty());
    }
}

/// One more part joins what has been joined so far.
proof fn lemma_join_step(parts: Seq<Seq<char>>, sep: Seq<char>, i: int)
    requires
        0 <= i < parts.len(),
    ensures
        join(parts.take(i + 1), sep) == join(parts.take(i), sep) + (if i == 0 {
            Seq::<char>::empty()
        } else {
            sep
        }) + parts[i],
{
    let now = parts.take(i + 1);
    assert(now.last() == parts[i]);
    assert(now.drop_last() =~= parts.take(i));
    if i == 0 {
        assert(join(parts.take(0), sep) =~= Seq::<char>::empty());
        assert(now[0] == parts[0]);
        assert(join(now, sep) =~= Seq::<char>::empty() + Seq::<char>::empty() + parts[0]);
    }
}

fn join_items(items: &Vec<FasValue>) -> (s: String)
    ensures
        s@ == join(item_texts(value_models(*items)), item_sep()),
    decreases items,
{
    let mut s = String::new();
    let mut i: usize = 0;
    let ghost parts = item_texts(value_models(*items));
    proof {
        assert(join(parts.take(0), item_sep()) =~= s@);
    }
    while i < items.len()
        invariant
            i <= items.len(),
            parts == item_texts(value_models(*items)),
            parts.len() == items.len(),
            s@ == join(parts.take(i as int), item_sep()),
        decreases items.len() - i,
    {
        push_sep(&mut s, i == 0);
        let part = items[i].as_str();
        s.append(part.as_str());
        proof {
            lemma_join_step(parts, item_sep(), i as int);
            assert(parts[i as int] == items[i as int]@.text());
        }
        i = i + 1;
    }
    proof {
        assert(parts.take(items.len() as int) =~= parts);
    }
    s
}

fn join_int_entries(entries: &Vec<(i64, FasValue)>) -> (s: String)
    ensures
        s@ == join(int_entry_texts(int_entry_models(*entries)), item_sep()),
    decreases entries,
{
    let mut s = String::new();
    let mut i: usize = 0;
    let ghost parts = int_entry_texts(int_entry_models(*entries));
    proof {
        reveal_strlit(": ");
        assert(join(parts.take(0), item_sep()) =~= s@);
    }
    while i < entries.len()
        invariant
            i <= entries.len(),
            parts == int_entry_texts(int_entry_models(*entries)),
            parts.len() == entries.len(),
            s@ == join(parts.take(i as int), item_sep()),
            ": "@ == key_sep(),
        decreases entries.len() - i,
    {
        push_sep(&mut s, i == 0);
        let ghost before = s@;
        let entry = &entries[i];
        let key = int_to_text(entry.0);
        s.append(key.as_str());
        s.append(": ");
        let part = entry.1.as_str();
        s.append(part.as_str());
        proof {
            lemma_join_step(parts, item_sep(), i as int);
            assert(parts[i as int] == int_text(entries[i as int].0 as int) + key_sep()
                + entries[i as int].1@.text());
            assert(s@ =~= before + parts[i as int]);
        }
        i = i + 1;
    }
    proof {
        assert(parts.take(entries.len() as int) =~= parts);
    }
    s
}

fn join_str_entries(entries: &Vec<(String, FasValue)>) -> (s: String)
    ensures
        s@ == join(str_entry_texts(str_entry_models(*entries)), item_sep()),
    decreases entries,
{
    let mut s = String::new();
    let mut i: usize = 0;
    let ghost parts = str_entry_texts(str_entry_models(*entries));
    proof {
        reveal_strlit(": ");
        assert(join(parts.take(0), item_sep()) =~= s@);
    }
    while i < entries.len()
        invariant
            i <= entries.len(),
            parts == str_entry_texts(str_entry_models(*entries)),
            parts.len() == entries.len(),
            s@ == join(parts.take(i as int), item_sep()),
            ": "@ == key_sep(),
        decreases entries.len() - i,
    {
        push_sep(&mut s, i == 0);
        let ghost before = s@;
        let entry = &entries[i];
        s.append(entry.0.as_str());
        s.append(": ");
        let part = entry.1.as_str();
        s.append(part.as_str());
        proof {
            lemma_join_step(parts, item_sep(), i as int);
            assert(parts[i as int] == entries[i as int].0@ + key_sep()
                + entries[i as int].1@.text());
            assert(s@ =~= before + parts[i as int]);
        }
        i = i + 1;
    }
    proof {
        assert(parts.take(entries.len() as int) =~= parts);
    }
    s
}

/// `open`, the text in between, and `close`.
fn bracket(open: &str, inner: String, close: &str) -> (s: String)
    ensures
        s@ == open@ + inner@ + close@,
{
    let mut s = String::from_str(open);
    s.append(inner.as_str());
    s.append(close);
    s
}

impl FasValue {
    /// The type that the value's shape shows.
    pub fn get_type(&self) -> (t: AstType)
        ensures
            t == self@.type_of(),
        decreases self,
    {
        match self {
            FasValue::Null => AstType::Void,
            FasValue::Bool(_) => AstType::Bool,
            FasValue::Int(_) => AstType::Int,
            FasValue::Float(_) => AstType::Float,
            FasValue::String(_) => AstType::String,
            FasValue::Array(v) => {
                let base_type = if v.len() == 0 {
                    AstType::Unknown
                } else {
                    v[0].get_type()
                };
                AstArrayType::new(base_type)
            },
            FasValue::IMap(im) => {
                let value_type = if im.len() == 0 {
                    AstType::Unknown
                } else {
                    im[im.len() - 1].1.get_type()
                };
                AstMapType::new(AstType::Int, value_type)
            },
            FasValue::SMap(sm) => {
                let value_type = if sm.len() == 0 {
                    AstType::Unknown
                } else {
                    sm[sm.len() - 1].1.get_type()
                };
                AstMapType::new(AstType::String, value_type)
            },
            FasValue::Func(f) => f.func.get_type(),
            FasValue::Task(_) => AstType::Task,
        }
    }

    /// The text by which the value is printed: a float with four decimals,
    /// an array as `[ item, item ]`, a map as `{ key: value, key: value }`.
    pub fn as_str(&self) -> (s: String)
        ensures
            s@ == self@.text(),
        decreases self,
    {
        proof {
            reveal_strlit("(null)");
            reveal_strlit("true");
            reveal_strlit("false");
            reveal_strlit("(func)");
            reveal_strlit("(task)");
            reveal_strlit("[ ");
            reveal_strlit(" ]");
            reveal_strlit("{ ");
            reveal_strlit(" }");
        }
        match self {
            FasValue::Null => {
                let s = String::from_str("(null)");
                assert(s@ =~= self@.text());
                s
            },
            FasValue::Bool(b) => {
                let s = if *b {
                    String::from_str("true")
                } else {
                    String::from_str("false")
                };
                assert(s@ =~= self@.text());
                s
            },
            FasValue::Int(n) => int_to_text(*n),
            FasValue::Float(f) => f.to_text(),
            FasValue::String(s) => s.clone(),
            FasValue::Array(v) => {
                let s = bracket("[ ", join_items(v), " ]");
                proof {
                    assert(self@->Array_0 =~= value_models(*v));
                    assert(s@ =~= self@.text());
                }
                s
            },
            FasValue::IMap(im) => {
                let s = bracket("{ ", join_int_entries(im), " }");
                proof {
                    assert(self@->IMap_0 =~= int_entry_models(*im));
                    assert(s@ =~= self@.text());
                }
                s
            },
            FasValue::SMap(sm) => {
                let s = bracket("{ ", join_str_entries(sm), " }");
                proof {
                    assert(self@->SMap_0 =~= str_entry_models(*sm));
                    assert(s@ =~= self@.text());
                }
                s
            },
            FasValue::Func(_) => {
                let s = String::from_str("(func)");
                assert(s@ =~= self@.text());
                s
            },
            FasValue::Task(_) => {
                let s = String::from_str("(task)");
                assert(s@ =~= self@.text());
                s
            },
        }
    }
}

fn convert_int_entries(entries: &Vec<(i64, FasValue)>, dest: &AstType) -> (r: Result<
    Vec<(i64, FasValue)>,
    ConversionError,
>)
    ensures
        match converted_int_entries(int_entry_models(*entries), *dest) {
            Some(out) => r is Ok && int_entry_models(r->Ok_0) == out,
            None => r is Err,
        },
    decreases entries, 0int,
{
    let ghost ms = int_entry_models(*entries);
    let mut out: Vec<(i64, FasValue)> = Vec::new();
    let mut i: usize = 0;
    while i < entries.len()
        invariant
            i <= entries.len(),
            out.len() == i,
            ms == int_entry_models(*entries),
            forall|j: int|
                0 <= j < i ==> (#[trigger] ms[j]).1.converted(*dest) is Some && out[j].0 == ms[j].0
                    && out[j].1@ == ms[j].1.converted(*dest)->Some_0,
        decreases entries.len() - i,
    {
        match entries[i].1.try_as_type(dest.clone()) {
            Ok(v) => out.push((entries[i].0, v)),
            Err(e) => {
                proof {
                    assert(ms[i as int].1.converted(*dest) is None);
                }
                return Err(e);
            },
        }
        i = i + 1;
    }
    proof {
        assert(int_entry_models(out) =~= converted_int_entries(ms, *dest)->Some_0);
    }
    Ok(out)
}

fn convert_str_entries(entries: &Vec<(String, FasValue)>, dest: &AstType) -> (r: Result<
    Vec<(String, FasValue)>,
    ConversionError,
>)
    ensures
        match converted_str_entries(str_entry_models(*entries), *dest) {
            Some(out) => r is Ok && str_entry_models(r->Ok_0) == out,
            None => r is Err,
        },
    decreases entries, 0int,
{
    let ghost ms = str_entry_models(*entries);
    let mut out: Vec<(String, FasValue)> = Vec::new();
    let mut i: usize = 0;
    while i < entries.len()
        invariant
            i <= entries.len(),
            out.len() == i,
            ms == str_entry_models(*entries),
            forall|j: int|
                0 <= j < i ==> (#[trigger] ms[j]).1.converted(*dest) is Some && out[j].0@ == ms[j].0
                    && out[j].1@ == ms[j].1.converted(*dest)->Some_0,
        decreases entries.len() - i,
    {
        match entries[i].1.try_as_type(dest.clone()) {
            Ok(v) => out.push((entries[i].0.clone(), v)),
            Err(e) => {
                proof {
                    assert(ms[i as int].1.converted(*dest) is None);
                }
                return Err(e);
            },
        }
        i = i + 1;
    }
    proof {
        assert(str_entry_models(out) =~= converted_str_entries(ms, *dest)->Some_0);
    }
    Ok(out)
}

impl FasValue {
    /// The items of an array, each converted to `base_type`; an error if
    /// one of them cannot be.
    pub fn try_as_array(&self, base_type: AstType) -> (r: Result<Vec<FasValue>, ConversionError>)
        requires
            self is Array,
        ensures
            match converted_items(self@->Array_0, base_type) {
                Some(out) => r is Ok && value_models(r->Ok_0) == out,
                None => r is Err,
            },
        decreases self, 0int,
    {
        match self {
            FasValue::Array(arr) => {
                let ghost ms = value_models(*arr);
                proof {
                    assert(self@->Array_0 =~= ms);
                }
                let mut out: Vec<FasValue> = Vec::new();
                let mut i: usize = 0;
                while i < arr.len()
                    invariant
                        i <= arr.len(),
                        out.len() == i,
                        ms == value_models(*arr),
                        self@->Array_0 == ms,
                        self matches FasValue::Array(a) && a == arr,
                        forall|j: int|
                            0 <= j < i ==> (#[trigger] ms[j]).converted(base_type) is Some
                                && out[j]@ == ms[j].converted(base_type)->Some_0,
                    decreases arr.len() - i,
                {
                    match arr[i].try_as_type(base_type.clone()) {
                        Ok(v) => out.push(v),
                        Err(e) => {
                            proof {
                                assert(ms[i as int].converted(base_type) is None);
                            }
                            return Err(e);
                        },
                    }
                    i = i + 1;
                }
                proof {
                    assert(value_models(out) =~= converted_items(ms, base_type)->Some_0);
                }
                Ok(out)
            },
            _ => Err(ConversionError::Unsupported),
        }
    }

    /// What a boolean holds.
    pub fn as_bool(&self) -> (b: bool)
        requires
            self is Bool,
        ensures
            self@ == ValueModel::Bool(b),
    {
        match self {
            FasValue::Bool(b) => *b,
            _ => false,
        }
    }

    /// The float that a float holds, or the float nearest to what an
    /// integer holds.
    pub fn as_float(&self) -> (f: FasFloat)
        requires
            self is Float || self is Int,
        ensures
            self matches FasValue::Float(held) ==> f == held,
            self matches FasValue::Int(i) ==> f == FasFloat::nearest(i as int),
    {
        match self {
            FasValue::Float(f) => *f,
            FasValue::Int(i) => FasFloat::from_int(*i),
            _ => FasFloat { bits: 0 },
        }
    }

    /// The integer that an integer holds, or the integer nearest to what a
    /// float holds, a half rounded away from zero.
    pub fn as_int(&self) -> (i: i64)
        requires
            self is Float || self is Int,
        ensures
            self matches FasValue::Float(f) ==> i == f.rounded(),
            self matches FasValue::Int(held) ==> i == held,
    {
        match self {
            FasValue::Float(f) => f.to_int(),
            FasValue::Int(i) => *i,
            _ => 0,
        }
    }

    /// A copy of the entries of an integer-keyed map.
    pub fn as_imap(&self) -> (entries: Vec<(i64, FasValue)>)
        requires
            self is IMap,
        ensures
            self@ == ValueModel::IMap(int_entry_models(entries)),
    {
        match self {
            FasValue::IMap(map) => {
                let entries = copy_int_entries(map);
                proof {
                    assert(self@->IMap_0 =~= int_entry_models(entries));
                }
                entries
            },
            _ => Vec::new(),
        }
    }

    /// A copy of the entries of a string-keyed map.
    pub fn as_smap(&self) -> (entries: Vec<(String, FasValue)>)
        requires
            self is SMap,
        ensures
            self@ == ValueModel::SMap(str_entry_models(entries)),
    {
        match self {
            FasValue::SMap(map) => {
                let entries = copy_str_entries(map);
                proof {
                    assert(self@->SMap_0 =~= str_entry_models(entries));
                }
                entries
            },
            _ => Vec::new(),
        }
    }

    /// The boolean that the value stands for, if it stands for one.
    pub fn try_as_bool(&self) -> (b: Option<bool>)
        ensures
            b == bool_of(self@),
    {
        match self {
            FasValue::Null => Some(false),
            FasValue::Bool(b) => Some(*b),
            FasValue::Int(n) => Some(*n != 0),
            FasValue::Float(f) => Some(!f.is_zero()),
            FasValue::String(s) => if same_text(s.as_str(), "true") {
                Some(true)
            } else if same_text(s.as_str(), "false") {
                Some(false)
            } else {
                None
            },
            _ => None,
        }
    }

    /// The integer that the value stands for, if it stands for one.
    pub fn try_as_int(&self) -> (i: Option<i64>)
        ensures
            match int_of(self@) {
                Some(n) => i == Some(n as i64) && i64::MIN <= n <= i64::MAX,
                None => i is None,
            },
    {
        match self {
            FasValue::Null => Some(0),
            FasValue::Bool(b) => Some(
                if *b {
                    1
                } else {
                    0
                },
            ),
            FasValue::Int(n) => Some(*n),
            FasValue::Float(f) => Some(f.to_int()),
            FasValue::String(s) => parse_i64(s.as_str()),
            _ => None,
        }
    }

    /// The float that the value stands for, if it stands for one.
    pub fn try_as_float(&self) -> (f: Option<FasFloat>)
        ensures
            match float_of(self@) {
                Some(bits) => f is Some && f->Some_0.bits == bits,
                None => f is None,
            },
    {
        match self {
            FasValue::Null => Some(FasFloat { bits: 0 }),
            FasValue::Bool(b) => Some(
                FasFloat::from_int(
                    if *b {
                        1
                    } else {
                        0
                    },
                ),
            ),
            FasValue::Int(n) => Some(FasFloat::from_int(*n)),
            FasValue::Float(f) => Some(*f),
            FasValue::String(s) => parse_float(s.as_str()),
            _ => None,
        }
    }

    /// The value as a value of type `dest_type`, or an error where there is
    /// no such conversion; see [`ValueModel::converted`].
    pub fn try_as_type(&self, dest_type: AstType) -> (r: Result<FasValue, ConversionError>)
        ensures
            conversion_is(r, self@.converted(dest_type)),
        decreases self, 1int,
    {
        if self.get_type() == dest_type {
            return Ok(self.clone());
        }
        match dest_type {
            AstType::Unknown => Ok(FasValue::Null),
            AstType::Void => Ok(FasValue::Null),
            AstType::Dynamic => Ok(self.clone()),
            AstType::String => Ok(FasValue::String(self.as_str())),
            AstType::Bool => match self.try_as_bool() {
                Some(b) => Ok(FasValue::Bool(b)),
                None => Err(ConversionError::Unsupported),
            },
            AstType::Float => match self.try_as_float() {
                Some(f) => Ok(FasValue::Float(f)),
                None => Err(ConversionError::Unsupported),
            },
            AstType::Int => match self.try_as_int() {
                Some(i) => Ok(FasValue::Int(i)),
                None => Err(ConversionError::Unsupported),
            },
            AstType::Array(array) => match self {
                FasValue::Array(_) => match self.try_as_array(*array.base_type) {
                    Ok(items) => {
                        let r = FasValue::Array(items);
                        proof {
                            assert(r@->Array_0 =~= value_models(items));
                        }
                        Ok(r)
                    },
                    Err(e) => Err(e),
                },
                _ => Err(ConversionError::Unsupported),
            },
            AstType::Mapping(map) => match self {
                FasValue::IMap(entries) => {
                    if *map.key_type == AstType::Int {
                        proof {
                            assert(self@->IMap_0 =~= int_entry_models(*entries));
                        }
                        match convert_int_entries(entries, &*map.value_type) {
                            Ok(out) => {
                                let r = FasValue::IMap(out);
                                proof {
                                    assert(r@->IMap_0 =~= int_entry_models(out));
                                }
                                Ok(r)
                            },
                            Err(e) => Err(e),
                        }
                    } else {
                        Err(ConversionError::Unsupported)
                    }
                },
                FasValue::SMap(entries) => {
                    if *map.key_type == AstType::String {
                        proof {
                            assert(self@->SMap_0 =~= str_entry_models(*entries));
                        }
                        match convert_str_entries(entries, &*map.value_type) {
                            Ok(out) => {
                                let r = FasValue::SMap(out);
                                proof {
                                    assert(r@->SMap_0 =~= str_entry_models(out));
                                }
                                Ok(r)
                            },
                            Err(e) => Err(e),
                        }
                    } else {
                        Err(ConversionError::Unsupported)
                    }
                },
                _ => Err(ConversionError::Unsupported),
            },
            _ => Err(ConversionError::Unsupported),
        }
    }

    /// The items of an array, each converted to `base_type`. To be called
    /// where each item can be converted; [`FasValue::try_as_array`] tells.
    pub fn as_array(&self, base_type: AstType) -> (items: Vec<FasValue>)
        requires
            self is Array,
            converted_items(self@->Array_0, base_type) is Some,
        ensures
            value_models(items) == converted_items(self@->Array_0, base_type)->Some_0,
    {
        match self.try_as_array(base_type) {
            Ok(items) => items,
            Err(_) => Vec::new(),
        }
    }

    /// The value as a value of type `dest_type`; see
    /// [`ValueModel::converted`]. To be called where there is such a
    /// conversion; [`FasValue::try_as_type`] tells.
    pub fn as_type(&self, dest_type: AstType) -> (value: FasValue)
        requires
            self@.converted(dest_type) is Some,
        ensures
            value@ == self@.converted(dest_type)->Some_0,
    {
        match self.try_as_type(dest_type) {
            Ok(value) => value,
            Err(_) => FasValue::Null,
        }
    }
}

/// The keys of the entries, in order.
pub open spec fn int_keys(entries: Seq<(int, ValueModel)>) -> Seq<int> {
    Seq::new(entries.len(), |i: int| entries[i].0)
}

/// The keys of the entries, in order.
pub open spec fn str_keys(entries: Seq<(Seq<char>, ValueModel)>) -> Seq<Seq<char>> {
    Seq::new(entries.len(), |i: int| entries[i].0)
}

fn items_are_well_formed(items: &Vec<FasValue>) -> (b: bool)
    ensures
        b == items_well_formed(value_models(*items)),
    decreases items,
{
    let ghost ms = value_models(*items);
    let mut i: usize = 0;
    while i < items.len()
        invariant
            i <= items.len(),
            ms == value_models(*items),
            forall|j: int| 0 <= j < i ==> (#[trigger] ms[j]).well_formed(),
        decreases items.len() - i,
    {
        if !items[i].is_well_formed() {
            proof {
                assert(!ms[i as int].well_formed());
            }
            return false;
        }
        i = i + 1;
    }
    true
}

fn int_entries_are_well_formed(entries: &Vec<(i64, FasValue)>) -> (b: bool)
    ensures
        b == (int_entries_well_formed(int_entry_models(*entries)) && keys_differ(
            int_keys(int_entry_models(*entries)),
        )),
    decreases entries,
{
    let ghost ms = int_entry_models(*entries);
    let ghost keys = int_keys(ms);
    let mut j: usize = 0;
    while j < entries.len()
        invariant
            j <= entries.len(),
            ms == int_entry_models(*entries),
            keys == int_keys(ms),
            forall|k: int| 0 <= k < j ==> (#[trigger] ms[k]).1.well_formed(),
            forall|a: int, b: int| 0 <= a < b < j ==> keys[a] != keys[b],
        decreases entries.len() - j,
    {
        if !entries[j].1.is_well_formed() {
            proof {
                assert(!ms[j as int].1.well_formed());
            }
            return false;
        }
        let mut i: usize = 0;
        while i < j
            invariant
                i <= j,
                j < entries.len(),
                ms == int_entry_models(*entries),
                keys == int_keys(ms),
                forall|a: int| 0 <= a < i ==> keys[a] != keys[j as int],
            decreases j - i,
        {
            if entries[i].0 == entries[j].0 {
                proof {
                    assert(keys[i as int] == keys[j as int]);
                }
                return false;
            }
            i = i + 1;
        }
        j = j + 1;
    }
    true
}

fn str_entries_are_well_formed(entries: &Vec<(String, FasValue)>) -> (b: bool)
    ensures
        b == (str_entries_well_formed(str_entry_models(*entries)) && keys_differ(
            str_keys(str_entry_models(*entries)),
        )),
    decreases entries,
{
    let ghost ms = str_entry_models(*entries);
    let ghost keys = str_keys(ms);
    let mut j: usize = 0;
    while j < entries.len()
        invariant
            j <= entries.len(),
            ms == str_entry_models(*entries),
            keys == str_keys(ms),
            forall|k: int| 0 <= k < j ==> (#[trigger] ms[k]).1.well_formed(),
            forall|a: int, b: int| 0 <= a < b < j ==> keys[a] != keys[b],
        decreases entries.len() - j,
    {
        if !entries[j].1.is_well_formed() {
            proof {
                assert(!ms[j as int].1.well_formed());
            }
            return false;
        }
        let mut i: usize = 0;
        while i < j
            invariant
                i <= j,
                j < entries.len(),
                ms == str_entry_models(*entries),
                keys == str_keys(ms),
                forall|a: int| 0 <= a < i ==> keys[a] != keys[j as int],
            decreases j - i,
        {
            if same_text(entries[i].0.as_str(), entries[j].0.as_str()) {
                proof {
                    assert(keys[i as int] == keys[j as int]);
                }
                return false;
            }
            i = i + 1;
        }
        j = j + 1;
    }
    true
}

impl FasValue {
    /// Whether a key occurs once in every map of the value, however deep.
    pub fn is_well_formed(&self) -> (b: bool)
        ensures
            b == self@.well_formed(),
        decreases self,
    {
        match self {
            FasValue::Array(items) => {
                proof {
                    assert(self@->Array_0 =~= value_models(*items));
                }
                items_are_well_formed(items)
            },
            FasValue::IMap(entries) => {
                proof {
                    assert(self@->IMap_0 =~= int_entry_models(*entries));
                }
                int_entries_are_well_formed(entries)
            },
            FasValue::SMap(entries) => {
                proof {
                    assert(self@->SMap_0 =~= str_entry_models(*entries));
                }
                str_entries_are_well_formed(entries)
            },
            _ => true,
        }
    }
}

} // verus!
