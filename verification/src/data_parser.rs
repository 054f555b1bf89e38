//! Extraction of data objects from the statements of an assembly listing: a
//! label introduces an object declared by a `.type` directive, the data
//! directives that follow contribute bytes or symbol references to it, and a
//! `.size` directive checks the accumulated size. Inputs on which the
//! extraction has no meaning — a data directive before any label was seen, a
//! duplicate object, a size that does not match — are left out by the
//! preconditions.

use vstd::prelude::*;
use vstd::string::StrSliceExecFns;

verus! {

/// A constant of the assembly language.
#[derive(Debug, PartialEq, Eq)]
pub enum Constant {
    Number(i64),
    HiDataRef(String),
    LoDataRef(String),
}

/// An argument of a directive or instruction.
#[derive(Debug, PartialEq, Eq)]
pub enum Argument {
    Register(u8),
    Symbol(String),
    StringLiteral(Vec<u8>),
    Constant(Constant),
}

/// One statement of the listing.
#[derive(Debug, PartialEq, Eq)]
pub enum Statement {
    Label(String),
    Directive(String, Vec<Argument>),
    Instruction(String, Vec<Argument>),
}

/// One piece of a data object: literal bytes, or a four-byte reference to
/// another symbol.
#[derive(Debug, PartialEq, Eq)]
pub enum DataValue {
    Direct(Vec<u8>),
    Reference(String),
}

/// The mathematical shape of a data value: its bytes or the referenced name.
#[verifier::ext_equal]
pub enum DataValueModel {
    Direct(Seq<u8>),
    Reference(Seq<char>),
}

impl View for DataValue {
    type V = DataValueModel;

    open spec fn view(&self) -> DataValueModel {
        match self {
            DataValue::Direct(data) => DataValueModel::Direct(data@),
            DataValue::Reference(name) => DataValueModel::Reference(name@),
        }
    }
}

/// The views of each data value in a list.
pub open spec fn dv_views(s: Seq<DataValue>) -> Seq<DataValueModel> {
    s.map_values(|d: DataValue| d@)
}

/// The size in bytes of one data value: its byte count, or four for a
/// reference.
pub open spec fn model_size(m: DataValueModel) -> int {
    match m {
        DataValueModel::Direct(data) => data.len() as int,
        DataValueModel::Reference(_) => 4,
    }
}

impl DataValue {
    /// Returns the size of the value in bytes.
    pub fn size(&self) -> (r: usize)
        ensures
            r == model_size(self@),
    {
        match self {
            DataValue::Direct(data) => data.len(),
            DataValue::Reference(_) => 4,
        }
    }
}

/// The little-endian bytes of the low 32 bits of a word argument.
pub open spec fn word_bytes(n: i64) -> Seq<u8> {
    seq![
        (n as u32 & 0xff) as u8,
        (n as u32 >> 8 & 0xff) as u8,
        (n as u32 >> 16 & 0xff) as u8,
        (n as u32 >> 24 & 0xff) as u8,
    ]
}

/// Whether an argument can stand in a `.word` directive.
pub open spec fn word_arg_ok(a: Argument) -> bool {
    ||| a matches Argument::Constant(Constant::Number(_))
    ||| a matches Argument::Symbol(_)
}

/// What a `.word` argument contributes: four little-endian bytes for a
/// number, a reference for a symbol.
pub open spec fn word_item(a: Argument) -> DataValueModel {
    match a {
        Argument::Constant(Constant::Number(n)) => DataValueModel::Direct(word_bytes(n)),
        Argument::Symbol(s) => DataValueModel::Reference(s@),
        _ => DataValueModel::Direct(Seq::empty()),
    }
}

/// Whether an argument can stand in a `.byte` directive.
pub open spec fn byte_arg_ok(a: Argument) -> bool {
    a matches Argument::Constant(Constant::Number(_))
}

/// The byte a `.byte` argument contributes: the low 8 bits of its number.
pub open spec fn byte_item(a: Argument) -> u8 {
    match a {
        Argument::Constant(Constant::Number(n)) => n as u8,
        _ => 0,
    }
}

/// The data values one directive contributes, or nothing when the directive
/// is not a data directive or its arguments are not of the shape the
/// directive asks for. A `.zero` count must be non-negative and fit the
/// machine's sizes.
pub open spec fn data_value_model(directive: Seq<char>, args: Seq<Argument>) -> Option<
    Seq<DataValueModel>,
> {
    if directive == ".zero"@ {
        if args.len() == 1 || args.len() == 2 {
            match args[0] {
                Argument::Constant(Constant::Number(n)) => if 0 <= n <= usize::MAX {
                    Some(seq![DataValueModel::Direct(Seq::new(n as nat, |i: int| 0u8))])
                } else {
                    None
                },
                _ => None,
            }
        } else {
            None
        }
    } else if directive == ".ascii"@ {
        if args.len() == 1 {
            match args[0] {
                Argument::StringLiteral(data) => Some(seq![DataValueModel::Direct(data@)]),
                _ => None,
            }
        } else {
            None
        }
    } else if directive == ".asciz"@ {
        if args.len() == 1 {
            match args[0] {
                Argument::StringLiteral(data) => Some(
                    seq![DataValueModel::Direct(data@ + seq![0u8])],
                ),
                _ => None,
            }
        } else {
            None
        }
    } else if directive == ".word"@ {
        if forall|i: int| 0 <= i < args.len() ==> word_arg_ok(#[trigger] args[i]) {
            Some(Seq::new(args.len(), |i: int| word_item(args[i])))
        } else {
            None
        }
    } else if directive == ".byte"@ {
        if forall|i: int| 0 <= i < args.len() ==> byte_arg_ok(#[trigger] args[i]) {
            Some(
                seq![DataValueModel::Direct(Seq::new(args.len(), |i: int| byte_item(args[i])))],
            )
        } else {
            None
        }
    } else {
        None
    }
}

/// Whether two strings hold the same characters.
fn str_eq(a: &str, b: &str) -> (r: bool)
    ensures
        r == (a@ == b@),
{
    let an = a.unicode_len();
    let bn = b.unicode_len();
    if an != bn {
        return false;
    }
    let mut i: usize = 0;
    while i < an
        invariant
            i <= an,
            an == a@.len(),
            bn == b@.len(),
            an == bn,
            forall|j: int| 0 <= j < i ==> a@[j] == b@[j],
        decreases an - i,
    {
        if a.get_char(i) != b.get_char(i) {
            return false;
        }
        i += 1;
    }
    proof {
        assert(a@ =~= b@);
    }
    true
}

/// Extracts the data values one data directive contributes.
#[verifier::loop_isolation(false)]
pub fn extract_data_value(directive: &str, arguments: &[Argument]) -> (r: Vec<DataValue>)
    requires
        data_value_model(directive@, arguments@) is Some,
    ensures
        data_value_model(directive@, arguments@) matches Some(m) && dv_views(r@) == m,
{
    let mut out: Vec<DataValue> = Vec::new();
    if str_eq(directive, ".zero") {
        let count: usize = match &arguments[0] {
            Argument::Constant(Constant::Number(n)) => *n as usize,
            _ => {
                proof {
                    assert(false);
                }
                0
            },
        };
        let data = vec![0u8; count];
        out.push(DataValue::Direct(data));
        proof {
            let m = data_value_model(directive@, arguments@)->Some_0;
            assert(dv_views(out@) =~~= m);
        }
    } else if str_eq(directive, ".ascii") {
        let data: Vec<u8> = match &arguments[0] {
            Argument::StringLiteral(data) => data.clone(),
            _ => {
                proof {
                    assert(false);
                }
                Vec::new()
            },
        };
        out.push(DataValue::Direct(data));
        proof {
            let m = data_value_model(directive@, arguments@)->Some_0;
            assert(dv_views(out@) =~~= m);
        }
    } else if str_eq(directive, ".asciz") {
        let mut data: Vec<u8> = match &arguments[0] {
            Argument::StringLiteral(data) => data.clone(),
            _ => {
                proof {
                    assert(false);
                }
                Vec::new()
            },
        };
        data.push(0);
        out.push(DataValue::Direct(data));
        proof {
            let m = data_value_model(directive@, arguments@)->Some_0;
            assert(dv_views(out@) =~~= m);
        }
    } else if str_eq(directive, ".word") {
        let n = arguments.len();
        let mut i: usize = 0;
        while i < n
            invariant
                i <= n,
                out@.len() == i,
                forall|j: int| 0 <= j < i ==> (#[trigger] out@[j])@ == word_item(arguments@[j]),
            decreases n - i,
        {
            match &arguments[i] {
                Argument::Constant(Constant::Number(num)) => {
                    let w: u32 = #[verifier::truncate] (*num as u32);
                    proof {
                        assert(w & 0xff < 256) by (bit_vector);
                        assert(w >> 8 & 0xff < 256) by (bit_vector);
                        assert(w >> 16 & 0xff < 256) by (bit_vector);
                        assert(w >> 24 & 0xff < 256) by (bit_vector);
                    }
                    let mut bytes: Vec<u8> = Vec::new();
                    bytes.push((w & 0xff) as u8);
                    bytes.push((w >> 8 & 0xff) as u8);
                    bytes.push((w >> 16 & 0xff) as u8);
                    bytes.push((w >> 24 & 0xff) as u8);
                    proof {
                        assert(bytes@ =~= word_bytes(*num));
                    }
                    out.push(DataValue::Direct(bytes));
                },
                Argument::Symbol(sym) => {
                    out.push(DataValue::Reference(sym.clone()));
                },
                _ => {
                    proof {
                        assert(word_arg_ok(arguments@[i as int]));
                        assert(false);
                    }
                },
            }
            i += 1;
        }
        proof {
            let m = data_value_model(directive@, arguments@)->Some_0;
            assert(dv_views(out@) =~~= m);
        }
    } else if str_eq(directive, ".byte") {
        let n = arguments.len();
        let mut data: Vec<u8> = Vec::new();
        let mut i: usize = 0;
        while i < n
            invariant
                i <= n,
                data@.len() == i,
                forall|j: int| 0 <= j < i ==> data@[j] == byte_item(arguments@[j]),
            decreases n - i,
        {
            match &arguments[i] {
                Argument::Constant(Constant::Number(num)) => {
                    let b: u8 = #[verifier::truncate] (*num as u8);
                    data.push(b);
                },
                _ => {
                    proof {
                        assert(byte_arg_ok(arguments@[i as int]));
                        assert(false);
                    }
                },
            }
            i += 1;
        }
        out.push(DataValue::Direct(data));
        proof {
            let m = data_value_model(directive@, arguments@)->Some_0;
            assert(dv_views(out@) =~~= m);
        }
    } else {
        proof {
            assert(false);
        }
    }
    out
}

/// One named object and its accumulated data values.
pub type ObjectEntry = (Seq<char>, Seq<DataValueModel>);

/// Whether no two objects share a name.
pub open spec fn objects_unique(s: Seq<ObjectEntry>) -> bool {
    forall|i: int, j: int| 0 <= i < j < s.len() ==> (#[trigger] s[i]).0 != (#[trigger] s[j]).0
}

/// Whether an object of that name exists.
pub open spec fn has_object(s: Seq<ObjectEntry>, name: Seq<char>) -> bool {
    exists|i: int| 0 <= i < s.len() && (#[trigger] s[i]).0 == name
}

/// The index of the object of that name.
pub open spec fn object_index(s: Seq<ObjectEntry>, name: Seq<char>) -> int {
    choose|i: int| 0 <= i < s.len() && (#[trigger] s[i]).0 == name
}

/// The total size in bytes of a list of data values.
pub open spec fn models_size(vals: Seq<DataValueModel>) -> int
    decreases vals.len(),
{
    if vals.len() == 0 {
        0
    } else {
        model_size(vals.first()) + models_size(vals.drop_first())
    }
}

/// The view of the label state.
pub open spec fn label_view(l: Option<String>) -> Option<Seq<char>> {
    match l {
        Some(s) => Some(s@),
        None => None,
    }
}

/// The view of the collected objects.
pub open spec fn objects_view(s: Seq<(String, Vec<DataValue>)>) -> Seq<ObjectEntry> {
    s.map_values(|e: (String, Vec<DataValue>)| (e.0@, dv_views(e.1@)))
}

/// What one statement does to the extraction state — the label last seen and
/// the objects collected so far — or nothing when the statement has no
/// meaning there: a duplicate `.type`, a data directive before any label, a
/// malformed data directive under a known label, or a `.size` that does not
/// match the accumulated size.
pub open spec fn object_step(
    label: Option<Seq<char>>,
    objs: Seq<ObjectEntry>,
    s: Statement,
) -> Option<(Option<Seq<char>>, Seq<ObjectEntry>)> {
    match s {
        Statement::Label(l) => Some((Some(l@), objs)),
        Statement::Directive(dir, args) => {
            if dir@ == ".type"@ {
                if args@.len() == 2 {
                    match (args@[0], args@[1]) {
                        (Argument::Symbol(name), Argument::Symbol(kind)) => if kind@
                            == "@object"@ {
                            if has_object(objs, name@) {
                                None
                            } else {
                                Some(
                                    (label, objs + seq![(name@, Seq::<DataValueModel>::empty())]),
                                )
                            }
                        } else {
                            Some((label, objs))
                        },
                        _ => Some((label, objs)),
                    }
                } else {
                    Some((label, objs))
                }
            } else if dir@ == ".zero"@ || dir@ == ".ascii"@ || dir@ == ".asciz"@ || dir@
                == ".word"@ || dir@ == ".byte"@ {
                match label {
                    None => None,
                    Some(l) => if has_object(objs, l) {
                        match data_value_model(dir@, args@) {
                            None => None,
                            Some(vals) => {
                                let k = object_index(objs, l);
                                Some((label, objs.update(k, (l, objs[k].1 + vals))))
                            },
                        }
                    } else {
                        Some((label, objs))
                    },
                }
            } else if dir@ == ".size"@ {
                if args@.len() == 2 {
                    match (args@[0], args@[1]) {
                        (Argument::Symbol(name), Argument::Constant(Constant::Number(n))) => if
                        label == Some(name@) {
                            if has_object(objs, name@) {
                                if models_size(objs[object_index(objs, name@)].1) == n {
                                    Some((label, objs))
                                } else {
                                    None
                                }
                            } else {
                                if n == 0 {
                                    Some(
                                        (
                                            label,
                                            objs + seq![(name@, Seq::<DataValueModel>::empty())],
                                        ),
                                    )
                                } else {
                                    None
                                }
                            }
                        } else {
                            Some((label, objs))
                        },
                        _ => Some((label, objs)),
                    }
                } else {
                    Some((label, objs))
                }
            } else {
                Some((label, objs))
            }
        },
        Statement::Instruction(_, _) => Some((label, objs)),
    }
}

/// The extraction state after running every statement, or nothing when some
/// statement has no meaning.
pub open spec fn objects_run(
    stmts: Seq<Statement>,
    label: Option<Seq<char>>,
    objs: Seq<ObjectEntry>,
) -> Option<(Option<Seq<char>>, Seq<ObjectEntry>)>
    decreases stmts.len(),
{
    if stmts.len() == 0 {
        Some((label, objs))
    } else {
        match object_step(label, objs, stmts.first()) {
            None => None,
            Some(st) => objects_run(stmts.drop_first(), st.0, st.1),
        }
    }
}

/// The objects a statement list declares, or nothing when the extraction has
/// no meaning on it.
pub open spec fn data_objects_model(stmts: Seq<Statement>) -> Option<Seq<ObjectEntry>> {
    match objects_run(stmts, None, Seq::empty()) {
        None => None,
        Some(st) => Some(st.1),
    }
}

/// Finds the object of that name, if any.
fn find_object_index(objects: &Vec<(String, Vec<DataValue>)>, name: &String) -> (r: Option<usize>)
    ensures
        r matches Some(i) ==> i < objects@.len() && objects@[i as int].0@ == name@,
        r is None ==> !has_object(objects_view(objects@), name@),
{
    let n = objects.len();
    let mut i: usize = 0;
    while i < n
        invariant
            i <= n,
            n == objects@.len(),
            forall|j: int| 0 <= j < i ==> (#[trigger] objects@[j]).0@ != name@,
        decreases n - i,
    {
        if objects[i].0 == *name {
            return Some(i);
        }
        i += 1;
    }
    proof {
        assert forall|j: int| 0 <= j < objects_view(objects@).len() implies (
        #[trigger] objects_view(objects@)[j]).0 != name@ by {
            assert(objects_view(objects@)[j].0 == objects@[j].0@);
        }
    }
    None
}

/// Walks the statements and collects, per object, the data values its
/// directives contribute, keyed by the object's name in order of first
/// declaration, with no name repeated.
#[verifier::loop_isolation(false)]
pub fn extract_data_objects(statements: &[Statement]) -> (r: Vec<(String, Vec<DataValue>)>)
    requires
        data_objects_model(statements@) is Some,
    ensures
        data_objects_model(statements@) matches Some(m) && objects_view(r@) == m,
        objects_unique(objects_view(r@)),
{
    let mut current_label: Option<String> = None;
    let mut objects: Vec<(String, Vec<DataValue>)> = Vec::new();
    let n = statements.len();
    let mut i: usize = 0;
    proof {
        assert(statements@.skip(0) =~= statements@);
        assert(objects_view(objects@) =~= Seq::<ObjectEntry>::empty());
    }
    while i < n
        invariant
            i <= n,
            n == statements@.len(),
            objects_unique(objects_view(objects@)),
            objects_run(
                statements@.skip(i as int),
                label_view(current_label),
                objects_view(objects@),
            ) == objects_run(statements@, None, Seq::empty()),
        decreases n - i,
    {
        proof {
            let rest = statements@.skip(i as int);
            assert(rest.first() == statements@[i as int]);
            assert(rest.drop_first() =~= statements@.skip(i as int + 1));
        }
        let ghost pre_label = label_view(current_label);
        let ghost pre_objs = objects_view(objects@);
        let ghost stepped = object_step(pre_label, pre_objs, statements@[i as int]);
        proof {
            assert(stepped is Some);
        }
        match &statements[i] {
            Statement::Label(l) => {
                current_label = Some(l.clone());
            },
            Statement::Directive(dir, args) => {
                if str_eq(dir.as_str(), ".type") {
                    if args.len() == 2 {
                        let name = match (&args[0], &args[1]) {
                            (Argument::Symbol(name), Argument::Symbol(kind)) => {
                                if str_eq(kind.as_str(), "@object") {
                                    Some(name)
                                } else {
                                    None
                                }
                            },
                            _ => None,
                        };
                        if let Some(name) = name {
                            match find_object_index(&objects, name) {
                                Some(found) => {
                                    // A duplicate object declaration is ruled
                                    // out by the precondition.
                                    proof {
                                        assert(pre_objs[found as int].0 == name@);
                                        assert(has_object(pre_objs, name@));
                                        assert(false);
                                    }
                                },
                                None => {
                                    objects.push((name.clone(), Vec::new()));
                                    proof {
                                        assert(dv_views(Seq::<DataValue>::empty()) =~= Seq::<
                                            DataValueModel,
                                        >::empty());
                                        assert(objects_view(objects@) =~~= pre_objs + seq![
                                            (name@, Seq::<DataValueModel>::empty()),
                                        ]);
                                    }
                                },
                            }
                        }
                    }
                } else if str_eq(dir.as_str(), ".zero") || str_eq(dir.as_str(), ".ascii")
                    || str_eq(dir.as_str(), ".asciz") || str_eq(dir.as_str(), ".word") || str_eq(
                    dir.as_str(),
                    ".byte",
                ) {
                    match &current_label {
                        None => {
                            // A data directive before any label is ruled out
                            // by the precondition.
                            proof {
                                assert(false);
                            }
                        },
                        Some(label) => {
                            match find_object_index(&objects, label) {
                                Some(idx) => {
                                    proof {
                                        assert(pre_objs[idx as int].0 == label@);
                                        assert(has_object(pre_objs, label@));
                                        let k = object_index(pre_objs, label@);
                                        assert(pre_objs[k].0 == label@);
                                        assert(k == idx as int);
                                    }
                                    let mut vals = extract_data_value(
                                        dir.as_str(),
                                        args.as_slice(),
                                    );
                                    let ghost vals_view = dv_views(vals@);
                                    let mut entry = objects.remove(idx);
                                    entry.1.append(&mut vals);
                                    proof {
                                        assert(dv_views(entry.1@) =~~= pre_objs[idx as int].1
                                            + vals_view);
                                    }
                                    objects.insert(idx, entry);
                                    proof {
                                        assert(objects_view(objects@) =~~= pre_objs.update(
                                            idx as int,
                                            (label@, pre_objs[idx as int].1 + vals_view),
                                        ));
                                    }
                                },
                                None => {
                                    proof {
                                        assert(objects_view(objects@) == pre_objs);
                                    }
                                },
                            }
                        },
                    }
                } else if str_eq(dir.as_str(), ".size") {
                    if args.len() == 2 {
                        let parts = match (&args[0], &args[1]) {
                            (Argument::Symbol(name), Argument::Constant(Constant::Number(num))) => {
                                Some((name, *num))
                            },
                            _ => None,
                        };
                        if let Some((name, _num)) = parts {
                            let label_matches = match &current_label {
                                Some(label) => *label == *name,
                                None => false,
                            };
                            if label_matches {
                                match find_object_index(&objects, name) {
                                    Some(found) => {
                                        // The accumulated size matches the
                                        // declared one: the precondition rules
                                        // a mismatch out, so there is nothing
                                        // to do.
                                        proof {
                                            assert(pre_objs[found as int].0 == name@);
                                            assert(has_object(pre_objs, name@));
                                        }
                                    },
                                    None => {
                                        objects.push((name.clone(), Vec::new()));
                                        proof {
                                            assert(dv_views(Seq::<DataValue>::empty()) =~= Seq::<
                                                DataValueModel,
                                            >::empty());
                                            assert(objects_view(objects@) =~~= pre_objs + seq![
                                                (name@, Seq::<DataValueModel>::empty()),
                                            ]);
                                        }
                                    },
                                }
                            }
                        }
                    }
                }
            },
            Statement::Instruction(_, _) => {},
        }
        proof {
            assert(label_view(current_label) == stepped->Some_0.0);
            assert(objects_view(objects@) =~~= stepped->Some_0.1);
        }
        i += 1;
    }
    proof {
        assert(statements@.skip(n as int) =~= Seq::<Statement>::empty());
    }
    objects
}

} // verus!
