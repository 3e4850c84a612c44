//! The variable store: a flat name-to-value map with type-shape
//! enforcement. A cell's value kind (string, number with integer flag,
//! boolean) never changes after declaration; writes of a different kind are
//! rejected.

use crate::error::{CodeError, ErrorKind, PossibleErrors};
use crate::num::{num_wf, Num};
use crate::tokens::{same_variant, spec_kind_id, spec_token_text, spec_token_wf, Token, TokenS, Type};
use vstd::prelude::*;

verus! {

/// A token that may live in a cell: a value of one of the three kinds, with
/// any numeric payload well-formed.
pub open spec fn spec_value_ok(t: TokenS) -> bool {
    match t {
        TokenS::Numero(v, _) => num_wf(v),
        TokenS::Cadena(_) => true,
        TokenS::Boolean(_) => true,
        _ => false,
    }
}

/// The zero value a freshly declared cell of each type starts from.
pub open spec fn spec_zero_value(t: Type) -> TokenS {
    match t {
        Type::Caracter => TokenS::Cadena(Seq::empty()),
        Type::Entero => TokenS::Numero(Num { n: 0, d: 1 }, true),
        Type::Real => TokenS::Numero(Num { n: 0, d: 1 }, false),
        Type::Logico => TokenS::Boolean(false),
        Type::Ninguno => TokenS::Boolean(false),
    }
}

/// The declared type a stored value answers for: the integer flag separates
/// whole numbers from reals.
pub open spec fn spec_type_of_value(t: TokenS) -> Option<Type> {
    match t {
        TokenS::Numero(_, entero) => if entero {
            Some(Type::Entero)
        } else {
            Some(Type::Real)
        },
        TokenS::Cadena(_) => Some(Type::Caracter),
        TokenS::Boolean(_) => Some(Type::Logico),
        _ => None,
    }
}

/// Declaration: a no-op when the name already exists or the type is unset,
/// otherwise the cell appears at its zero value.
pub open spec fn spec_create(m: Map<Seq<char>, TokenS>, name: Seq<char>, t: Type) -> Map<
    Seq<char>,
    TokenS,
> {
    if m.contains_key(name) || t == Type::Ninguno {
        m
    } else {
        m.insert(name, spec_zero_value(t))
    }
}

/// Write: fails on an undeclared name, fails when the value kind differs
/// from the cell's current kind, and otherwise replaces the cell's value.
pub open spec fn spec_set(m: Map<Seq<char>, TokenS>, name: Seq<char>, value: TokenS) -> Result<
    Map<Seq<char>, TokenS>,
    ErrorKind,
> {
    if !m.contains_key(name) {
        Err(ErrorKind::VariableNotFound(name))
    } else if spec_kind_id(m[name]) != spec_kind_id(value) {
        Err(ErrorKind::WrongType)
    } else {
        Ok(m.insert(name, value))
    }
}

/// The flat variable store, one namespace for the whole run.
pub struct Memoria {
    cells: Vec<(String, Token)>,
}

/// The map an association list denotes, later entries shadowing earlier
/// ones (well-formed stores have no duplicate keys).
pub open spec fn map_of(cells: Seq<(String, Token)>) -> Map<Seq<char>, TokenS>
    decreases cells.len(),
{
    if cells.len() == 0 {
        Map::empty()
    } else {
        map_of(cells.drop_last()).insert(cells.last().0@, cells.last().1@)
    }
}

impl View for Memoria {
    type V = Map<Seq<char>, TokenS>;

    closed spec fn view(&self) -> Map<Seq<char>, TokenS> {
        map_of(self.cells@)
    }
}

/// With unique keys, membership in the denoted map is exactly having an
/// entry, and the map agrees with every entry.
proof fn lemma_map_of_index(cells: Seq<(String, Token)>)
    requires
        forall|i: int, j: int| 0 <= i < j < cells.len() ==> cells[i].0@ != cells[j].0@,
    ensures
        forall|k: Seq<char>| #[trigger]
            map_of(cells).contains_key(k) ==> exists|i: int|
                0 <= i < cells.len() && cells[i].0@ == k,
        forall|i: int|
            0 <= i < cells.len() ==> map_of(cells).contains_key(#[trigger] cells[i].0@) && map_of(
                cells,
            )[cells[i].0@] == cells[i].1@,
    decreases cells.len(),
{
    if cells.len() > 0 {
        let pre = cells.drop_last();
        lemma_map_of_index(pre);
        assert forall|k: Seq<char>| #[trigger] map_of(cells).contains_key(k) implies exists|i: int|
            0 <= i < cells.len() && cells[i].0@ == k by {
            if k == cells.last().0@ {
                assert(cells[cells.len() - 1].0@ == k);
            } else {
                assert(map_of(pre).contains_key(k));
                let i = choose|i: int| 0 <= i < pre.len() && pre[i].0@ == k;
                assert(cells[i].0@ == k);
            }
        }
        assert forall|i: int| 0 <= i < cells.len() implies map_of(cells).contains_key(
            #[trigger] cells[i].0@,
        ) && map_of(cells)[cells[i].0@] == cells[i].1@ by {
            if i < cells.len() - 1 {
                assert(pre[i] == cells[i]);
                assert(cells[i].0@ != cells.last().0@);
            }
        }
    }
}

/// Replacing the entry at `i` with one under the same key denotes the map
/// with that key re-bound.
proof fn lemma_map_of_update(cells: Seq<(String, Token)>, i: int, v: (String, Token))
    requires
        0 <= i < cells.len(),
        forall|p: int, q: int| 0 <= p < q < cells.len() ==> cells[p].0@ != cells[q].0@,
        v.0@ == cells[i].0@,
    ensures
        map_of(cells.update(i, v)) == map_of(cells).insert(v.0@, v.1@),
    decreases cells.len(),
{
    let upd = cells.update(i, v);
    if i == cells.len() - 1 {
        assert(upd.drop_last() =~= cells.drop_last());
        assert(map_of(upd) == map_of(cells.drop_last()).insert(v.0@, v.1@));
        assert(map_of(cells.drop_last()).insert(cells.last().0@, cells.last().1@).insert(
            v.0@,
            v.1@,
        ) =~= map_of(cells.drop_last()).insert(v.0@, v.1@));
    } else {
        let pre = cells.drop_last();
        assert(upd.drop_last() =~= pre.update(i, v));
        lemma_map_of_update(pre, i, v);
        assert(upd.last() == cells.last());
        assert(map_of(upd) == map_of(pre).insert(v.0@, v.1@).insert(
            cells.last().0@,
            cells.last().1@,
        ));
        assert(cells[i].0@ != cells.last().0@);
        assert(map_of(pre).insert(v.0@, v.1@).insert(cells.last().0@, cells.last().1@) =~= map_of(
            pre,
        ).insert(cells.last().0@, cells.last().1@).insert(v.0@, v.1@));
    }
}

impl Memoria {
    /// Unique keys, and every stored value is a well-formed value token.
    pub closed spec fn wf(&self) -> bool {
        &&& forall|i: int, j: int|
            0 <= i < j < self.cells@.len() ==> self.cells@[i].0@ != self.cells@[j].0@
        &&& forall|i: int|
            0 <= i < self.cells@.len() ==> spec_value_ok(#[trigger] self.cells@[i].1@)
    }

    /// Every value held by a well-formed store is a well-formed value token.
    pub proof fn lemma_values_ok(&self)
        requires
            self.wf(),
        ensures
            forall|k: Seq<char>| #[trigger]
                self@.contains_key(k) ==> spec_value_ok(self@[k]),
    {
        lemma_map_of_index(self.cells@);
        assert forall|k: Seq<char>| #[trigger] self@.contains_key(k) implies spec_value_ok(
            self@[k],
        ) by {
            let i = choose|i: int| 0 <= i < self.cells@.len() && self.cells@[i].0@ == k;
            assert(map_of(self.cells@)[self.cells@[i].0@] == self.cells@[i].1@);
        }
    }

    /// An empty store.
    pub fn new() -> (r: Memoria)
        ensures
            r.wf(),
            r@ == Map::<Seq<char>, TokenS>::empty(),
    {
        Memoria { cells: Vec::new() }
    }

    /// Declares `name` at the zero value of `tipo`. A name that already
    /// exists, or an unset type, leaves the store unchanged and answers
    /// `None`.
    pub fn create(&mut self, name: String, tipo: Type) -> (r: Option<()>)
        requires
            old(self).wf(),
        ensures
            final(self).wf(),
            final(self)@ == spec_create(old(self)@, name@, tipo),
            r is Some <==> (!old(self)@.contains_key(name@) && tipo != Type::Ninguno),
    {
        proof {
            lemma_map_of_index(self.cells@);
        }
        let n = self.cells.len();
        let mut i: usize = 0;
        while i < n
            invariant
                n == self.cells@.len(),
                i <= n,
                forall|j: int| 0 <= j < i ==> self.cells@[j].0@ != name@,
                self.wf(),
                self.cells@ == old(self).cells@,
            decreases n - i,
        {
            if self.cells[i].0 == name {
                proof {
                    lemma_map_of_index(self.cells@);
                }
                return None;
            }
            i = i + 1;
        }
        proof {
            lemma_map_of_index(self.cells@);
        }
        let initial_data = match tipo {
            Type::Caracter => Token::Cadena(String::new()),
            Type::Entero => Token::Numero(Num { n: 0, d: 1 }, true),
            Type::Real => Token::Numero(Num { n: 0, d: 1 }, false),
            Type::Logico => Token::Boolean(false),
            Type::Ninguno => {
                return None;
            },
        };
        let ghost pre = self.cells@;
        self.cells.push((name, initial_data));
        proof {
            assert(self.cells@.drop_last() =~= pre);
        }
        Some(())
    }

    /// The declared type answered for `name`, read off the stored value.
    pub fn get_type(&self, name: String) -> (r: Option<Type>)
        requires
            self.wf(),
        ensures
            r == (if self@.contains_key(name@) {
                spec_type_of_value(self@[name@])
            } else {
                Option::<Type>::None
            }),
    {
        proof {
            lemma_map_of_index(self.cells@);
        }
        let n = self.cells.len();
        let mut i: usize = 0;
        while i < n
            invariant
                n == self.cells@.len(),
                i <= n,
                forall|j: int| 0 <= j < i ==> self.cells@[j].0@ != name@,
                self.wf(),
            decreases n - i,
        {
            if self.cells[i].0 == name {
                proof {
                    lemma_map_of_index(self.cells@);
                }
                return match &self.cells[i].1 {
                    Token::Numero(_, entero) => if *entero {
                        Some(Type::Entero)
                    } else {
                        Some(Type::Real)
                    },
                    Token::Cadena(_) => Some(Type::Caracter),
                    Token::Boolean(_) => Some(Type::Logico),
                    _ => None,
                };
            }
            i = i + 1;
        }
        proof {
            lemma_map_of_index(self.cells@);
        }
        None
    }

    /// The current value of `name`, when it exists.
    pub fn get(&self, name: String) -> (r: Option<&Token>)
        requires
            self.wf(),
        ensures
            match r {
                Some(t) => self@.contains_key(name@) && t@ == self@[name@] && spec_value_ok(t@),
                None => !self@.contains_key(name@),
            },
    {
        proof {
            lemma_map_of_index(self.cells@);
        }
        let n = self.cells.len();
        let mut i: usize = 0;
        while i < n
            invariant
                n == self.cells@.len(),
                i <= n,
                forall|j: int| 0 <= j < i ==> self.cells@[j].0@ != name@,
                self.wf(),
            decreases n - i,
        {
            if self.cells[i].0 == name {
                proof {
                    lemma_map_of_index(self.cells@);
                }
                return Some(&self.cells[i].1);
            }
            i = i + 1;
        }
        proof {
            lemma_map_of_index(self.cells@);
        }
        None
    }

    /// Replaces the value of `name`, enforcing the kind invariant: an
    /// undeclared name or a value of another kind is rejected and the store
    /// is untouched.
    pub fn set(&mut self, name: String, value: Token) -> (r: Result<(), CodeError>)
        requires
            old(self).wf(),
            spec_token_wf(value@),
        ensures
            final(self).wf(),
            match spec_set(old(self)@, name@, value@) {
                Ok(m2) => r is Ok && final(self)@ == m2,
                Err(e) => (r matches Err(ce) && ce@ == e) && final(self)@ == old(self)@,
            },
    {
        proof {
            lemma_map_of_index(self.cells@);
        }
        let n = self.cells.len();
        let mut i: usize = 0;
        while i < n
            invariant
                n == self.cells@.len(),
                i <= n,
                forall|j: int| 0 <= j < i ==> self.cells@[j].0@ != name@,
                self.wf(),
                self.cells@ == old(self).cells@,
                spec_token_wf(value@),
            decreases n - i,
        {
            if self.cells[i].0 == name {
                proof {
                    lemma_map_of_index(self.cells@);
                }
                if !same_variant(&self.cells[i].1, &value) {
                    return Err(CodeError { error: PossibleErrors::WrongType });
                }
                let ghost pre = self.cells@;
                self.cells.set(i, (name, value));
                proof {
                    lemma_map_of_update(pre, i as int, ((name, value)));
                    assert(forall|j: int|
                        0 <= j < self.cells@.len() && j != i ==> self.cells@[j] == pre[j]);
                    assert(self.cells@[i as int].0@ == pre[i as int].0@);
                    assert(spec_value_ok(pre[i as int].1@));
                    assert(spec_kind_id(pre[i as int].1@) == spec_kind_id(value@));
                    assert(spec_value_ok(value@)) by {
                        match value@ {
                            TokenS::Numero(..) => {},
                            TokenS::Cadena(..) => {},
                            TokenS::Boolean(..) => {},
                            _ => {
                                assert(spec_kind_id(value@) != 14);
                                assert(spec_kind_id(value@) != 15);
                                assert(spec_kind_id(value@) != 16);
                            },
                        }
                    }
                    assert(spec_value_ok(self.cells@[i as int].1@));
                }
                return Ok(());
            }
            i = i + 1;
        }
        proof {
            lemma_map_of_index(self.cells@);
        }
        Err(CodeError { error: PossibleErrors::VariableNotFound(name) })
    }
}

/// Law of the store's type enforcement: on a declared name, writing a value
/// of a different kind than the cell's current one always fails with
/// WrongType and changes nothing, and writing a same-kind value always
/// succeeds and is what an immediately following read of that name sees.
pub proof fn lemma_write_type_enforcement(
    m: Map<Seq<char>, TokenS>,
    name: Seq<char>,
    value: TokenS,
)
    requires
        m.contains_key(name),
    ensures
        spec_kind_id(m[name]) != spec_kind_id(value) ==> spec_set(m, name, value) == Result::<
            Map<Seq<char>, TokenS>,
            ErrorKind,
        >::Err(ErrorKind::WrongType),
        spec_kind_id(m[name]) == spec_kind_id(value) ==> (spec_set(m, name, value) matches Ok(m2)
            && m2.contains_key(name) && m2[name] == value),
{
}

/// Law of zero values: a freshly declared cell's textual form is its
/// documented zero: the empty text for a character, "0" for an integer or
/// a real, and "false" for a logical.
pub proof fn lemma_zero_value_text(m: Map<Seq<char>, TokenS>, name: Seq<char>, t: Type)
    requires
        !m.contains_key(name),
        t != Type::Ninguno,
    ensures
        ({
            let m2 = spec_create(m, name, t);
            m2.contains_key(name) && spec_token_text(m2[name]) == (match t {
                Type::Caracter => Seq::<char>::empty(),
                Type::Entero => "0"@,
                Type::Real => "0"@,
                Type::Logico => "false"@,
                Type::Ninguno => Seq::<char>::empty(),
            })
        }),
{
    let m2 = spec_create(m, name, t);
    assert(m2[name] == spec_zero_value(t));
    match t {
        Type::Entero => {
            assert(spec_token_text(m2[name]) == crate::num::spec_num_text(
                Num { n: 0, d: 1 },
                true,
            ));
            assert(vstd::math::abs(0int) == 0);
        },
        Type::Real => {
            assert(vstd::math::abs(0int) == 0);
            assert(crate::num::spec_frac_digits(0, 1, 9) =~= Seq::<char>::empty());
        },
        _ => {},
    }
}

} // verus!
