//! The builtins that a function requires and the frame offsets they get.

use vstd::prelude::*;
use vstd::string::*;

verus! {

/// A builtin of the machine.
#[derive(Clone, Copy, Debug, PartialEq, Eq, Hash, Structural)]
pub enum Builtin {
    RangeCheck,
    Bitwise,
    Pedersen,
    Poseidon,
    EcOp,
    Ecdsa,
    Output,
}

/// The generic type that a declared type instantiates, as far as the
/// synthesizer tells them apart.
#[derive(Clone, Copy, Debug, PartialEq, Eq, Hash, Structural)]
pub enum GenericType {
    Poseidon,
    EcOp,
    Bitwise,
    RangeCheck,
    Pedersen,
    /// The system-call resource.
    System,
    /// The gas counter.
    GasBuiltin,
    /// The arena that dictionaries are allocated in.
    SegmentArena,
    /// Any other type: an ordinary value.
    Other,
}

/// The generic type of this name.
pub open spec fn generic_named(name: Seq<char>) -> GenericType {
    if name == "Poseidon"@ {
        GenericType::Poseidon
    } else if name == "EcOp"@ {
        GenericType::EcOp
    } else if name == "Bitwise"@ {
        GenericType::Bitwise
    } else if name == "RangeCheck"@ {
        GenericType::RangeCheck
    } else if name == "Pedersen"@ {
        GenericType::Pedersen
    } else if name == "System"@ {
        GenericType::System
    } else if name == "GasBuiltin"@ {
        GenericType::GasBuiltin
    } else if name == "SegmentArena"@ {
        GenericType::SegmentArena
    } else {
        GenericType::Other
    }
}

impl GenericType {
    /// The generic type of this name: one of the builtins and resources
    /// that the synthesizer knows, or an ordinary value.
    pub fn from_name(name: &str) -> (r: GenericType)
        ensures
            r == generic_named(name@),
    {
        let name: String = String::from_str(name);
        if name == String::from_str("Poseidon") {
            GenericType::Poseidon
        } else if name == String::from_str("EcOp") {
            GenericType::EcOp
        } else if name == String::from_str("Bitwise") {
            GenericType::Bitwise
        } else if name == String::from_str("RangeCheck") {
            GenericType::RangeCheck
        } else if name == String::from_str("Pedersen") {
            GenericType::Pedersen
        } else if name == String::from_str("System") {
            GenericType::System
        } else if name == String::from_str("GasBuiltin") {
            GenericType::GasBuiltin
        } else if name == String::from_str("SegmentArena") {
            GenericType::SegmentArena
        } else {
            GenericType::Other
        }
    }
}

/// A type of a function's signature with what the program says of it.
#[derive(Clone, Debug, PartialEq, Eq)]
pub struct TypeDecl {
    /// The type's id in the program.
    pub id: u64,
    /// The name the type was declared under, if the program keeps names.
    pub debug_name: Option<String>,
    /// The generic type it instantiates, if the program's registry knows the
    /// type.
    pub generic: Option<GenericType>,
    /// The number of memory cells a value of the type takes, if known.
    pub size: Option<i16>,
}

/// The model of a `TypeDecl`.
pub struct TypeDeclView {
    pub id: u64,
    pub debug_name: Option<Seq<char>>,
    pub generic: Option<GenericType>,
    pub size: Option<i16>,
}

impl View for TypeDecl {
    type V = TypeDeclView;

    open spec fn view(&self) -> TypeDeclView {
        TypeDeclView {
            id: self.id,
            debug_name: match self.debug_name {
                Some(name) => Some(name@),
                None => None,
            },
            generic: self.generic,
            size: self.size,
        }
    }
}

/// The models of a sequence of declared types.
pub open spec fn decls_view(s: Seq<TypeDecl>) -> Seq<TypeDeclView> {
    s.map_values(|t: TypeDecl| t@)
}

/// The name under which a builtin's type is declared.
pub open spec fn declared_name(b: Builtin) -> Seq<char> {
    match b {
        Builtin::RangeCheck => "RangeCheck"@,
        Builtin::Bitwise => "Bitwise"@,
        Builtin::Pedersen => "Pedersen"@,
        Builtin::Poseidon => "Poseidon"@,
        Builtin::EcOp => "EcOp"@,
        Builtin::Ecdsa => "Ecdsa"@,
        Builtin::Output => "Output"@,
    }
}

/// Whether one of the types is declared under `name`.
pub open spec fn declares_name(types: Seq<TypeDeclView>, name: Seq<char>) -> bool {
    exists|i: int| 0 <= i < types.len() && (#[trigger] types[i]).debug_name == Some(name)
}

/// Whether one of the types is the builtin `b`, by its declared name.
pub open spec fn declares(types: Seq<TypeDeclView>, b: Builtin) -> bool {
    declares_name(types, declared_name(b))
}

/// The builtins that can be handed to a function, in the order in which
/// offsets are assigned.
pub open spec fn priority() -> Seq<Builtin> {
    seq![
        Builtin::Poseidon,
        Builtin::EcOp,
        Builtin::Bitwise,
        Builtin::RangeCheck,
        Builtin::Pedersen,
    ]
}

/// The place of a builtin in `priority()`, if it has one.
pub open spec fn rank(b: Builtin) -> Option<int> {
    match b {
        Builtin::Poseidon => Some(0),
        Builtin::EcOp => Some(1),
        Builtin::Bitwise => Some(2),
        Builtin::RangeCheck => Some(3),
        Builtin::Pedersen => Some(4),
        _ => None,
    }
}

/// The builtins among the first `k` of `priority()` that the types declare,
/// in that order.
pub open spec fn discovered(types: Seq<TypeDeclView>, k: int) -> Seq<Builtin>
    decreases k,
{
    if k <= 0 {
        Seq::empty()
    } else if declares(types, priority()[k - 1]) {
        discovered(types, k - 1).push(priority()[k - 1])
    } else {
        discovered(types, k - 1)
    }
}

/// The first frame offset that a builtin gets.
pub const FIRST_BUILTIN_OFFSET: i16 = 3;

/// The frame offset of builtin `b`: the declared builtins get the offsets
/// from 3 upwards, in the order of `priority()`.
pub open spec fn builtin_offset(types: Seq<TypeDeclView>, b: Builtin) -> Option<int> {
    match rank(b) {
        Some(k) => if declares(types, b) {
            Some(FIRST_BUILTIN_OFFSET + discovered(types, k).len())
        } else {
            None
        },
        None => None,
    }
}

/// The builtins that the function requires, as the engine expects them: the
/// declared ones in the reverse of `priority()`.
pub open spec fn required_builtins(types: Seq<TypeDeclView>) -> Seq<Builtin> {
    discovered(types, 5).reverse()
}

/// The frame offsets of the builtins that a function requires.
#[derive(Clone, Copy, Debug, PartialEq, Eq, Structural)]
pub struct BuiltinOffsets {
    pub poseidon: Option<i16>,
    pub ec_op: Option<i16>,
    pub bitwise: Option<i16>,
    pub range_check: Option<i16>,
    pub pedersen: Option<i16>,
}

impl BuiltinOffsets {
    /// The offset recorded for `b`.
    pub open spec fn spec_get(&self, b: Builtin) -> Option<i16> {
        match b {
            Builtin::Poseidon => self.poseidon,
            Builtin::EcOp => self.ec_op,
            Builtin::Bitwise => self.bitwise,
            Builtin::RangeCheck => self.range_check,
            Builtin::Pedersen => self.pedersen,
            _ => None,
        }
    }

    /// Whether these are the offsets that `types` calls for.
    pub open spec fn resolves(&self, types: Seq<TypeDeclView>) -> bool {
        forall|b: Builtin|
            match #[trigger] self.spec_get(b) {
                Some(o) => builtin_offset(types, b) == Some(o as int),
                None => builtin_offset(types, b) is None,
            }
    }

    /// The offset recorded for `b`.
    #[verifier::when_used_as_spec(spec_get)]
    pub fn get(&self, b: Builtin) -> (r: Option<i16>)
        ensures
            r == self.spec_get(b),
    {
        match b {
            Builtin::Poseidon => self.poseidon,
            Builtin::EcOp => self.ec_op,
            Builtin::Bitwise => self.bitwise,
            Builtin::RangeCheck => self.range_check,
            Builtin::Pedersen => self.pedersen,
            _ => None,
        }
    }
}

/// Whether one of the types is declared under `name`.
pub fn has_type_named(types: &Vec<TypeDecl>, name: &str) -> (r: bool)
    ensures
        r == declares_name(decls_view(types@), name@),
{
    let wanted: String = String::from_str(name);
    let mut i: usize = 0;
    while i < types.len()
        invariant
            i <= types.len(),
            wanted@ == name@,
            forall|j: int|
                0 <= j < i ==> (#[trigger] decls_view(types@)[j]).debug_name != Some(name@),
        decreases types.len() - i,
    {
        let found: bool = match &types[i].debug_name {
            Some(n) => *n == wanted,
            None => false,
        };
        if found {
            assert(decls_view(types@)[i as int].debug_name == Some(name@));
            return true;
        }
        i = i + 1;
    }
    false
}

/// Finds the builtins that a function with these parameter types requires.
/// Returns them as the engine expects them, together with the frame offset
/// of each: 3 for the first declared builtin in the order poseidon, ec-op,
/// bitwise, range-check, pedersen, 4 for the second, and so on, whatever the
/// order of the parameters.
pub fn get_function_builtins(param_types: &Vec<TypeDecl>) -> (r: (Vec<Builtin>, BuiltinOffsets))
    ensures
        r.0@ == required_builtins(decls_view(param_types@)),
        r.1.resolves(decls_view(param_types@)),
{
    let ghost types = decls_view(param_types@);
    let poseidon: bool = has_type_named(param_types, "Poseidon");
    let ec_op: bool = has_type_named(param_types, "EcOp");
    let bitwise: bool = has_type_named(param_types, "Bitwise");
    let range_check: bool = has_type_named(param_types, "RangeCheck");
    let pedersen: bool = has_type_named(param_types, "Pedersen");
    let mut offsets = BuiltinOffsets {
        poseidon: None,
        ec_op: None,
        bitwise: None,
        range_check: None,
        pedersen: None,
    };
    let mut current_offset: i16 = FIRST_BUILTIN_OFFSET;
    proof {
        reveal_with_fuel(discovered, 6);
    }
    if poseidon {
        offsets.poseidon = Some(current_offset);
        current_offset = current_offset + 1;
    }
    assert(current_offset == 3 + discovered(types, 1).len());
    if ec_op {
        offsets.ec_op = Some(current_offset);
        current_offset = current_offset + 1;
    }
    assert(current_offset == 3 + discovered(types, 2).len());
    if bitwise {
        offsets.bitwise = Some(current_offset);
        current_offset = current_offset + 1;
    }
    assert(current_offset == 3 + discovered(types, 3).len());
    if range_check {
        offsets.range_check = Some(current_offset);
        current_offset = current_offset + 1;
    }
    assert(current_offset == 3 + discovered(types, 4).len());
    if pedersen {
        offsets.pedersen = Some(current_offset);
    }
    let mut builtins: Vec<Builtin> = Vec::new();
    if pedersen {
        builtins.push(Builtin::Pedersen);
    }
    if range_check {
        builtins.push(Builtin::RangeCheck);
    }
    if bitwise {
        builtins.push(Builtin::Bitwise);
    }
    if ec_op {
        builtins.push(Builtin::EcOp);
    }
    if poseidon {
        builtins.push(Builtin::Poseidon);
    }
    assert(builtins@ =~= required_builtins(types));
    (builtins, offsets)
}

/// What holds of the builtins discovered among the first `k` of the
/// assignment order.
proof fn lemma_discovered(types: Seq<TypeDeclView>, k: int)
    requires
        0 <= k <= 5,
    ensures
        forall|j: int|
            0 <= j < discovered(types, k).len() ==> {
                let b = #[trigger] discovered(types, k)[j];
                &&& rank(b) is Some
                &&& rank(b)->0 < k
                &&& declares(types, b)
                &&& discovered(types, rank(b)->0).len() == j
            },
        forall|b: Builtin|
            rank(b) is Some && rank(b)->0 < k && declares(types, b) ==> {
                let j = discovered(types, rank(b)->0).len() as int;
                j < discovered(types, k).len() && discovered(types, k)[j] == b
            },
    decreases k,
{
    if k > 0 {
        lemma_discovered(types, k - 1);
        let prev = discovered(types, k - 1);
        let d = discovered(types, k);
        let last = priority()[k - 1];
        assert(rank(last) == Some(k - 1));
        assert forall|b: Builtin| rank(b) is Some && rank(b)->0 < k && declares(types, b) implies {
            let j = discovered(types, rank(b)->0).len() as int;
            j < d.len() && d[j] == b
        } by {
            if rank(b)->0 == k - 1 {
                assert(b == last);
            } else {
                let j = discovered(types, rank(b)->0).len() as int;
                assert(prev[j] == b);
            }
        }
        assert forall|j: int| 0 <= j < d.len() implies {
            let b = #[trigger] d[j];
            &&& rank(b) is Some
            &&& rank(b)->0 < k
            &&& declares(types, b)
            &&& discovered(types, rank(b)->0).len() == j
        } by {
            if j < prev.len() {
                assert(d[j] == prev[j]);
            }
        }
    }
}

/// The required builtins are listed without repetition, each is declared,
/// and the one at place `j` of the assignment order has offset `3 + j`: the
/// offsets are contiguous from 3 and follow the order poseidon, ec-op,
/// bitwise, range-check, pedersen.
pub proof fn lemma_offsets_contiguous(types: Seq<TypeDeclView>)
    ensures
        forall|j: int|
            0 <= j < discovered(types, 5).len() ==> builtin_offset(
                types,
                #[trigger] discovered(types, 5)[j],
            ) == Some(3 + j),
        forall|i: int, j: int|
            0 <= i < j < discovered(types, 5).len() ==> rank(
                #[trigger] discovered(types, 5)[i],
            )->0 < rank(#[trigger] discovered(types, 5)[j])->0,
        forall|b: Builtin|
            builtin_offset(types, b) is Some <==> discovered(types, 5).contains(b),
{
    let d = discovered(types, 5);
    lemma_discovered(types, 5);
    assert forall|i: int, j: int| 0 <= i < j < d.len() implies rank(#[trigger] d[i])->0 < rank(
        #[trigger] d[j],
    )->0 by {
        let bi = d[i];
        let bj = d[j];
        lemma_discovered_monotone(types, rank(bi)->0, rank(bj)->0);
    }
    assert forall|b: Builtin| builtin_offset(types, b) is Some implies d.contains(b) by {
        let j = discovered(types, rank(b)->0).len() as int;
        assert(d[j] == b);
    }
}

/// More builtins are discovered among more of the assignment order.
proof fn lemma_discovered_monotone(types: Seq<TypeDeclView>, k: int, m: int)
    ensures
        k >= m ==> discovered(types, k).len() >= discovered(types, m).len(),
    decreases k,
{
    if k > m && k > 0 {
        lemma_discovered_monotone(types, k - 1, m);
    } else if k > m {
        assert(discovered(types, m).len() == 0);
    }
}

/// The offsets and the list of required builtins depend only on which
/// builtin types are declared, not on where in the signature they stand:
/// two signatures that are rearrangements of each other get the same.
pub proof fn lemma_offsets_ignore_declaration_order(a: Seq<TypeDeclView>, b: Seq<TypeDeclView>)
    requires
        a.to_multiset() == b.to_multiset(),
    ensures
        required_builtins(a) == required_builtins(b),
        forall|x: Builtin| builtin_offset(a, x) == builtin_offset(b, x),
{
    a.to_multiset_ensures();
    b.to_multiset_ensures();
    assert forall|name: Seq<char>| declares_name(a, name) == declares_name(b, name) by {
        if declares_name(a, name) {
            let i = choose|i: int| 0 <= i < a.len() && (#[trigger] a[i]).debug_name == Some(name);
            assert(a.contains(a[i]));
            assert(a.to_multiset().count(a[i]) > 0);
            assert(b.to_multiset().count(a[i]) > 0);
            assert(b.contains(a[i]));
            let j = choose|j: int| 0 <= j < b.len() && b[j] == a[i];
            assert(b[j].debug_name == Some(name));
        }
        if declares_name(b, name) {
            let i = choose|i: int| 0 <= i < b.len() && (#[trigger] b[i]).debug_name == Some(name);
            assert(b.contains(b[i]));
            assert(b.to_multiset().count(b[i]) > 0);
            assert(a.to_multiset().count(b[i]) > 0);
            assert(a.contains(b[i]));
            let j = choose|j: int| 0 <= j < a.len() && a[j] == b[i];
            assert(a[j].debug_name == Some(name));
        }
    }
    reveal_with_fuel(discovered, 6);
    assert(discovered(a, 5) =~= discovered(b, 5));
}


/// Every assigned offset lies between 3 and 7.
pub proof fn lemma_offset_range(types: Seq<TypeDeclView>)
    ensures
        forall|b: Builtin|
            (#[trigger] builtin_offset(types, b)) matches Some(o) ==> 3 <= o <= 7,
{
    reveal_with_fuel(discovered, 6);
}

} // verus!
