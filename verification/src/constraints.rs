//! The constraints of a table's values, how an update merges into them, and how the
//! choices of an enum table get their numbers.
//!
//! An enum table stores each value as the number of its choice. A choice keeps its
//! number for as long as the table lives, even after it is removed from the choices,
//! so stored values never change meaning; numbers are handed out in order and never
//! reused.

use vstd::prelude::*;
use vstd::string::StringExecFns;

use crate::models::TableDataType;

verus! {

/// The names of an enum's choices, as text.
pub open spec fn str_views(v: Seq<String>) -> Seq<Seq<char>> {
    v.map_values(|s: String| s@)
}

/// The map that a list of `(choice, number)` entries stands for.
pub open spec fn mapping_map(s: Seq<(String, u16)>) -> Map<Seq<char>, u16>
    decreases s.len(),
{
    if s.len() == 0 {
        Map::empty()
    } else {
        mapping_map(s.drop_last()).insert(s.last().0@, s.last().1)
    }
}

proof fn lemma_mapping_map_contains(s: Seq<(String, u16)>, k: Seq<char>)
    ensures
        mapping_map(s).contains_key(k) <==> exists|i: int| 0 <= i < s.len() && #[trigger] s[i].0@ == k,
    decreases s.len(),
{
    if s.len() > 0 {
        let init = s.drop_last();
        lemma_mapping_map_contains(init, k);
        if exists|i: int| 0 <= i < init.len() && #[trigger] init[i].0@ == k {
            let i = choose|i: int| 0 <= i < init.len() && #[trigger] init[i].0@ == k;
            assert(s[i].0@ == k);
        }
        if exists|i: int| 0 <= i < s.len() && #[trigger] s[i].0@ == k {
            let i = choose|i: int| 0 <= i < s.len() && #[trigger] s[i].0@ == k;
            if i < s.len() - 1 {
                assert(init[i].0@ == k);
            }
        }
    }
}

/// The number each choice of an enum table has been given.
///
/// Held as a list of pairs, each choice once, rather than a `HashMap<String, u16>`:
/// vstd models a hash map only for keys that obey its key model, which it grants to
/// primitive types and not to `String`, so no operation on such a map would come with
/// a contract here.
pub struct EnumMapping {
    entries: Vec<(String, u16)>,
}

impl View for EnumMapping {
    type V = Map<Seq<char>, u16>;

    closed spec fn view(&self) -> Map<Seq<char>, u16> {
        mapping_map(self.entries@)
    }
}

/// A copy of `s`.
pub fn copy_string(s: &String) -> (c: String)
    ensures
        c@ == s@,
{
    s.clone()
}

/// A copy of a list of names.
pub fn copy_strings(v: &Vec<String>) -> (c: Vec<String>)
    ensures
        str_views(c@) == str_views(v@),
{
    let mut out: Vec<String> = Vec::new();
    let mut i: usize = 0;
    while i < v.len()
        invariant
            i <= v@.len(),
            out@.len() == i,
            forall|j: int| 0 <= j < i ==> #[trigger] out@[j]@ == v@[j]@,
        decreases v@.len() - i,
    {
        out.push(copy_string(&v[i]));
        i += 1;
    }
    assert(str_views(out@) =~= str_views(v@));
    out
}

impl EnumMapping {
    pub fn new() -> (m: EnumMapping)
        ensures
            m@ == Map::<Seq<char>, u16>::empty(),
    {
        EnumMapping { entries: Vec::new() }
    }

    /// The mapping that the entries, each later one winning, stand for.
    pub fn from_entries(entries: Vec<(String, u16)>) -> (m: EnumMapping)
        ensures
            m@ == mapping_map(entries@),
    {
        EnumMapping { entries }
    }

    /// The entries, in the order the numbers were given.
    pub fn entries(&self) -> (v: &Vec<(String, u16)>)
        ensures
            mapping_map(v@) == self@,
    {
        &self.entries
    }

    /// Whether `name` has been given a number.
    pub fn contains(&self, name: &String) -> (b: bool)
        ensures
            b == self@.contains_key(name@),
    {
        let mut i: usize = 0;
        while i < self.entries.len()
            invariant
                i <= self.entries@.len(),
                forall|j: int| 0 <= j < i ==> #[trigger] self.entries@[j].0@ != name@,
            decreases self.entries@.len() - i,
        {
            if self.entries[i].0 == *name {
                assert(self.entries@[i as int].0@ == name@);
                proof {
                    lemma_mapping_map_contains(self.entries@, name@);
                }
                return true;
            }
            i += 1;
        }
        proof {
            lemma_mapping_map_contains(self.entries@, name@);
        }
        false
    }

    /// Gives `name` the number `id`.
    pub fn insert(&mut self, name: String, id: u16)
        ensures
            final(self)@ == old(self)@.insert(name@, id),
    {
        self.entries.push((name, id));
        assert(self.entries@.drop_last() =~= old(self).entries@);
    }

    /// A copy of the mapping.
    pub fn copy(&self) -> (c: EnumMapping)
        ensures
            c@ == self@,
    {
        let mut out: Vec<(String, u16)> = Vec::new();
        let mut i: usize = 0;
        while i < self.entries.len()
            invariant
                i <= self.entries@.len(),
                out@.len() == i,
                forall|j: int| 0 <= j < i ==> #[trigger] out@[j].0@ == self.entries@[j].0@ && out@[j].1
                    == self.entries@[j].1,
            decreases self.entries@.len() - i,
        {
            out.push((copy_string(&self.entries[i].0), self.entries[i].1));
            i += 1;
        }
        proof {
            lemma_mapping_map_same(out@, self.entries@);
        }
        EnumMapping { entries: out }
    }
}

proof fn lemma_mapping_map_same(a: Seq<(String, u16)>, b: Seq<(String, u16)>)
    requires
        a.len() == b.len(),
        forall|j: int| 0 <= j < a.len() ==> #[trigger] a[j].0@ == b[j].0@ && a[j].1 == b[j].1,
    ensures
        mapping_map(a) == mapping_map(b),
    decreases a.len(),
{
    if a.len() > 0 {
        let (ia, ib) = (a.drop_last(), b.drop_last());
        assert forall|j: int| 0 <= j < ia.len() implies #[trigger] ia[j].0@ == ib[j].0@ && ia[j].1 == ib[j].1 by {
            assert(ia[j] == a[j]);
            assert(ib[j] == b[j]);
        }
        lemma_mapping_map_same(ia, ib);
        assert(a.last().0@ == b.last().0@);
    }
}

/// The constraints of a table's values.
pub enum TableConstraints {
    Text { min_length: Option<u32>, max_length: Option<u32> },
    Int { min: Option<i64>, max: Option<i64> },
    /// The allowed choices, the number of every choice ever allowed, and the next
    /// number to hand out.
    Enum { choices: Vec<String>, mapping: EnumMapping, next_id: u16 },
}

/// A change to a table's constraints: `None` leaves a bound as it is, `Some(None)`
/// lifts it, `Some(Some(v))` sets it. For an enum, `choices` replaces the list,
/// `add_choices` appends those not listed yet, and `remove_choices` drops those given.
pub enum UpdateTableConstraints {
    Text { min_length: Option<Option<u32>>, max_length: Option<Option<u32>> },
    Int { min: Option<Option<i64>>, max: Option<Option<i64>> },
    Enum { choices: Option<Vec<String>>, add_choices: Option<Vec<String>>, remove_choices: Option<Vec<String>> },
}

/// Constraints as plain values.
pub enum ConstraintsView {
    Text { min_length: Option<u32>, max_length: Option<u32> },
    Int { min: Option<i64>, max: Option<i64> },
    Enum { choices: Seq<Seq<char>>, mapping: Map<Seq<char>, u16>, next_id: u16 },
}

/// A change to constraints as plain values.
pub enum UpdateView {
    Text { min_length: Option<Option<u32>>, max_length: Option<Option<u32>> },
    Int { min: Option<Option<i64>>, max: Option<Option<i64>> },
    Enum {
        choices: Option<Seq<Seq<char>>>,
        add_choices: Option<Seq<Seq<char>>>,
        remove_choices: Option<Seq<Seq<char>>>,
    },
}

pub open spec fn opt_strs(o: Option<Vec<String>>) -> Option<Seq<Seq<char>>> {
    match o {
        Some(v) => Some(str_views(v@)),
        None => None,
    }
}

impl View for TableConstraints {
    type V = ConstraintsView;

    open spec fn view(&self) -> ConstraintsView {
        match self {
            TableConstraints::Text { min_length, max_length } => ConstraintsView::Text {
                min_length: *min_length,
                max_length: *max_length,
            },
            TableConstraints::Int { min, max } => ConstraintsView::Int { min: *min, max: *max },
            TableConstraints::Enum { choices, mapping, next_id } => ConstraintsView::Enum {
                choices: str_views(choices@),
                mapping: mapping@,
                next_id: *next_id,
            },
        }
    }
}

impl View for UpdateTableConstraints {
    type V = UpdateView;

    open spec fn view(&self) -> UpdateView {
        match self {
            UpdateTableConstraints::Text { min_length, max_length } => UpdateView::Text {
                min_length: *min_length,
                max_length: *max_length,
            },
            UpdateTableConstraints::Int { min, max } => UpdateView::Int { min: *min, max: *max },
            UpdateTableConstraints::Enum { choices, add_choices, remove_choices } => UpdateView::Enum {
                choices: opt_strs(*choices),
                add_choices: opt_strs(*add_choices),
                remove_choices: opt_strs(*remove_choices),
            },
        }
    }
}

pub open spec fn opt_constraints(c: Option<TableConstraints>) -> Option<ConstraintsView> {
    match c {
        Some(c) => Some(c@),
        None => None,
    }
}

/// Why constraints were refused.
#[derive(Debug, Clone, Copy, PartialEq, Eq)]
pub enum ConstraintError {
    /// Every number an enum choice can have is taken.
    EnumIdsExhausted,
    /// An enum table was given no choices.
    EnumRequiresChoices,
    /// A presence table holds no value to constrain.
    PresenceHasNoConstraints,
    /// The constraints are for another type of value.
    TypeMismatch,
}

impl ConstraintError {
    /// The reason, as reported to the user.
    pub fn reason(&self) -> (r: String)
        ensures
            r@ == match self {
                ConstraintError::EnumIdsExhausted => "Enum choices reached maximum limit (65535)"@,
                ConstraintError::EnumRequiresChoices => "Enum type requires 'choices' constraint"@,
                ConstraintError::PresenceHasNoConstraints => "Presence type cannot have constraints"@,
                ConstraintError::TypeMismatch => "Constraint type does not match data type"@,
            },
    {
        match self {
            ConstraintError::EnumIdsExhausted => String::from_str("Enum choices reached maximum limit (65535)"),
            ConstraintError::EnumRequiresChoices => String::from_str("Enum type requires 'choices' constraint"),
            ConstraintError::PresenceHasNoConstraints => String::from_str("Presence type cannot have constraints"),
            ConstraintError::TypeMismatch => String::from_str("Constraint type does not match data type"),
        }
    }
}

/// Numbers for the choices that have none yet, handed out in the order of the
/// choices: the next number, with 0 skipped. Fails when a choice needs a number and
/// the last one is reached.
pub open spec fn assign_ids(
    choices: Seq<Seq<char>>,
    mapping: Map<Seq<char>, u16>,
    next_id: u16,
) -> Result<(Map<Seq<char>, u16>, u16), ConstraintError>
    decreases choices.len(),
{
    if choices.len() == 0 {
        Ok((mapping, next_id))
    } else {
        match assign_ids(choices.drop_last(), mapping, next_id) {
            Err(e) => Err(e),
            Ok((m, n)) => {
                let c = choices.last();
                if m.contains_key(c) {
                    Ok((m, n))
                } else if n == u16::MAX {
                    Err(ConstraintError::EnumIdsExhausted)
                } else {
                    let id: u16 = if n == 0 {
                        1
                    } else {
                        n
                    };
                    Ok((m.insert(c, id), (id + 1) as u16))
                }
            },
        }
    }
}

proof fn lemma_assign_err_extends(
    choices: Seq<Seq<char>>,
    mapping: Map<Seq<char>, u16>,
    next_id: u16,
    i: int,
)
    requires
        0 <= i <= choices.len(),
        assign_ids(choices.subrange(0, i), mapping, next_id) is Err,
    ensures
        assign_ids(choices, mapping, next_id) == Err::<(Map<Seq<char>, u16>, u16), _>(ConstraintError::EnumIdsExhausted),
    decreases choices.len() - i,
{
    if i == choices.len() {
        assert(choices.subrange(0, i) =~= choices);
        lemma_assign_err_is_exhausted(choices, mapping, next_id);
    } else {
        let s = choices.subrange(0, i + 1);
        assert(s.drop_last() =~= choices.subrange(0, i));
        lemma_assign_err_extends(choices, mapping, next_id, i + 1);
    }
}

proof fn lemma_assign_err_is_exhausted(choices: Seq<Seq<char>>, mapping: Map<Seq<char>, u16>, next_id: u16)
    ensures
        assign_ids(choices, mapping, next_id) is Err ==> assign_ids(choices, mapping, next_id) == Err::<
            (Map<Seq<char>, u16>, u16),
            _,
        >(ConstraintError::EnumIdsExhausted),
    decreases choices.len(),
{
    if choices.len() > 0 {
        lemma_assign_err_is_exhausted(choices.drop_last(), mapping, next_id);
    }
}

/// Gives every choice without a number one, in the order of the choices.
pub fn assign_enum_ids(choices: &Vec<String>, mapping: &mut EnumMapping, next_id: &mut u16) -> (r: Result<(), ConstraintError>)
    ensures
        match assign_ids(str_views(choices@), old(mapping)@, *old(next_id)) {
            Ok((m, n)) => r is Ok && final(mapping)@ == m && *final(next_id) == n,
            Err(e) => r == Err::<(), ConstraintError>(e),
        },
{
    let ghost cs = str_views(choices@);
    let ghost m0 = mapping@;
    let ghost n0 = *next_id;
    let mut i: usize = 0;
    while i < choices.len()
        invariant
            i <= choices@.len(),
            cs == str_views(choices@),
            m0 == old(mapping)@,
            n0 == *old(next_id),
            assign_ids(cs.subrange(0, i as int), m0, n0) == Ok::<(Map<Seq<char>, u16>, u16), ConstraintError>(
                (mapping@, *next_id),
            ),
        decreases choices@.len() - i,
    {
        proof {
            assert(cs.subrange(0, i + 1).drop_last() =~= cs.subrange(0, i as int));
            assert(cs.subrange(0, i + 1).last() == choices@[i as int]@);
        }
        if !mapping.contains(&choices[i]) {
            if *next_id == u16::MAX {
                proof {
                    let p = cs.subrange(0, i + 1);
                    assert(!mapping@.contains_key(p.last()));
                    assert(assign_ids(p, m0, n0) is Err);
                    lemma_assign_err_extends(cs, m0, n0, i + 1);
                }
                return Err(ConstraintError::EnumIdsExhausted);
            }
            if *next_id == 0 {
                *next_id = 1;
            }
            mapping.insert(copy_string(&choices[i]), *next_id);
            *next_id = *next_id + 1;
        }
        i += 1;
    }
    assert(cs.subrange(0, choices@.len() as int) =~= cs);
    Ok(())
}

/// Whether `name` is in `names`.
pub fn contains_name(names: &Vec<String>, name: &String) -> (b: bool)
    ensures
        b == str_views(names@).contains(name@),
{
    let mut i: usize = 0;
    while i < names.len()
        invariant
            i <= names@.len(),
            forall|j: int| 0 <= j < i ==> #[trigger] names@[j]@ != name@,
        decreases names@.len() - i,
    {
        if names[i] == *name {
            assert(str_views(names@)[i as int] == name@);
            return true;
        }
        i += 1;
    }
    proof {
        if str_views(names@).contains(name@) {
            let j = choose|j: int| 0 <= j < str_views(names@).len() && str_views(names@)[j] == name@;
            assert(names@[j]@ == name@);
        }
    }
    false
}

/// `base` with the names of `adds` that it lacks appended, in their order.
pub open spec fn add_missing(base: Seq<Seq<char>>, adds: Seq<Seq<char>>) -> Seq<Seq<char>>
    decreases adds.len(),
{
    if adds.len() == 0 {
        base
    } else {
        let b = add_missing(base, adds.drop_last());
        if b.contains(adds.last()) {
            b
        } else {
            b.push(adds.last())
        }
    }
}

/// `base` without the names in `removes`, in their order.
pub open spec fn without(base: Seq<Seq<char>>, removes: Seq<Seq<char>>) -> Seq<Seq<char>>
    decreases base.len(),
{
    if base.len() == 0 {
        base
    } else {
        let rest = without(base.drop_last(), removes);
        if removes.contains(base.last()) {
            rest
        } else {
            rest.push(base.last())
        }
    }
}

/// The choices after an update: the new list or the current one, with the additions
/// appended and the removals dropped.
pub open spec fn merged_choices(
    current: Seq<Seq<char>>,
    choices: Option<Seq<Seq<char>>>,
    adds: Option<Seq<Seq<char>>>,
    removes: Option<Seq<Seq<char>>>,
) -> Seq<Seq<char>> {
    let base = match choices {
        Some(c) => c,
        None => current,
    };
    let added = match adds {
        Some(a) => add_missing(base, a),
        None => base,
    };
    match removes {
        Some(r) => without(added, r),
        None => added,
    }
}

/// A bound after an update: the new one if given, else the current one.
pub open spec fn pick<T>(update: Option<Option<T>>, current: Option<T>) -> Option<T> {
    match update {
        Some(v) => v,
        None => current,
    }
}

/// The constraints that an update of a table of type `data_type` leaves.
pub open spec fn spec_merged(
    data_type: TableDataType,
    current: Option<ConstraintsView>,
    update: UpdateView,
) -> Result<Option<ConstraintsView>, ConstraintError> {
    match (data_type, update) {
        (TableDataType::Text, UpdateView::Text { min_length, max_length }) => {
            let (cmin, cmax) = match current {
                Some(ConstraintsView::Text { min_length, max_length }) => (min_length, max_length),
                _ => (None, None),
            };
            Ok(Some(ConstraintsView::Text { min_length: pick(min_length, cmin), max_length: pick(max_length, cmax) }))
        },
        (TableDataType::Int, UpdateView::Int { min, max }) => {
            let (cmin, cmax) = match current {
                Some(ConstraintsView::Int { min, max }) => (min, max),
                _ => (None, None),
            };
            Ok(Some(ConstraintsView::Int { min: pick(min, cmin), max: pick(max, cmax) }))
        },
        (TableDataType::Enum, UpdateView::Enum { choices, add_choices, remove_choices }) => {
            let (cc, cm, cn) = match current {
                Some(ConstraintsView::Enum { choices, mapping, next_id }) => (choices, mapping, next_id),
                _ => (Seq::empty(), Map::empty(), 1u16),
            };
            let merged = merged_choices(cc, choices, add_choices, remove_choices);
            match assign_ids(merged, cm, cn) {
                Ok((m, n)) => Ok(Some(ConstraintsView::Enum { choices: merged, mapping: m, next_id: n })),
                Err(e) => Err(e),
            }
        },
        (TableDataType::Presence, _) => Err(ConstraintError::PresenceHasNoConstraints),
        _ => Err(ConstraintError::TypeMismatch),
    }
}

/// The constraints a new table of type `data_type` is created with: an enum table's
/// choices get their numbers; other tables keep what they were given.
pub open spec fn spec_with_enum_ids(
    data_type: TableDataType,
    constraints: Option<ConstraintsView>,
) -> Result<Option<ConstraintsView>, ConstraintError> {
    if data_type == TableDataType::Enum {
        match constraints {
            Some(ConstraintsView::Enum { choices, mapping, next_id }) => match assign_ids(choices, mapping, next_id) {
                Ok((m, n)) => Ok(Some(ConstraintsView::Enum { choices, mapping: m, next_id: n })),
                Err(e) => Err(e),
            },
            _ => Err(ConstraintError::EnumRequiresChoices),
        }
    } else {
        Ok(constraints)
    }
}

fn add_missing_names(base: &mut Vec<String>, adds: Vec<String>)
    ensures
        str_views(final(base)@) == add_missing(str_views(old(base)@), str_views(adds@)),
{
    let ghost b0 = str_views(base@);
    let ghost av = str_views(adds@);
    let mut i: usize = 0;
    while i < adds.len()
        invariant
            i <= adds@.len(),
            av == str_views(adds@),
            str_views(base@) == add_missing(b0, av.subrange(0, i as int)),
        decreases adds@.len() - i,
    {
        proof {
            assert(av.subrange(0, i + 1).drop_last() =~= av.subrange(0, i as int));
            assert(av.subrange(0, i + 1).last() == adds@[i as int]@);
        }
        if !contains_name(base, &adds[i]) {
            base.push(copy_string(&adds[i]));
            assert(str_views(base@) =~= add_missing(b0, av.subrange(0, i + 1)));
        }
        i += 1;
    }
    assert(av.subrange(0, adds@.len() as int) =~= av);
}

fn without_names(base: &Vec<String>, removes: &Vec<String>) -> (r: Vec<String>)
    ensures
        str_views(r@) == without(str_views(base@), str_views(removes@)),
{
    let ghost bv = str_views(base@);
    let mut out: Vec<String> = Vec::new();
    let mut i: usize = 0;
    while i < base.len()
        invariant
            i <= base@.len(),
            bv == str_views(base@),
            str_views(out@) == without(bv.subrange(0, i as int), str_views(removes@)),
        decreases base@.len() - i,
    {
        proof {
            assert(bv.subrange(0, i + 1).drop_last() =~= bv.subrange(0, i as int));
            assert(bv.subrange(0, i + 1).last() == base@[i as int]@);
        }
        if !contains_name(removes, &base[i]) {
            out.push(copy_string(&base[i]));
        }
        assert(str_views(out@) =~= without(bv.subrange(0, i + 1), str_views(removes@)));
        i += 1;
    }
    assert(bv.subrange(0, base@.len() as int) =~= bv);
    out
}

impl TableConstraints {
    /// The constraints after `update` of a table of type `data_type` whose constraints
    /// are `current`. A bound not given stays; an enum's choices are rebuilt and new
    /// ones get numbers. A presence table takes no constraints, and constraints for
    /// another type are refused.
    pub fn merged_with(
        data_type: TableDataType,
        current: Option<&TableConstraints>,
        update: UpdateTableConstraints,
    ) -> (r: Result<Option<TableConstraints>, ConstraintError>)
        ensures
            match spec_merged(
                data_type,
                match current {
                    Some(c) => Some(c@),
                    None => None,
                },
                update@,
            ) {
                Ok(v) => r is Ok && opt_constraints(r->Ok_0) == v,
                Err(e) => r == Err::<Option<TableConstraints>, ConstraintError>(e),
            },
    {
        match (data_type, update) {
            (TableDataType::Text, UpdateTableConstraints::Text { min_length, max_length }) => {
                let (mut cmin, mut cmax) = match current {
                    Some(TableConstraints::Text { min_length, max_length }) => (*min_length, *max_length),
                    _ => (None, None),
                };
                if let Some(v) = min_length {
                    cmin = v;
                }
                if let Some(v) = max_length {
                    cmax = v;
                }
                Ok(Some(TableConstraints::Text { min_length: cmin, max_length: cmax }))
            },
            (TableDataType::Int, UpdateTableConstraints::Int { min, max }) => {
                let (mut cmin, mut cmax) = match current {
                    Some(TableConstraints::Int { min, max }) => (*min, *max),
                    _ => (None, None),
                };
                if let Some(v) = min {
                    cmin = v;
                }
                if let Some(v) = max {
                    cmax = v;
                }
                Ok(Some(TableConstraints::Int { min: cmin, max: cmax }))
            },
            (TableDataType::Enum, UpdateTableConstraints::Enum { choices, add_choices, remove_choices }) => {
                let (mut current_choices, mut mapping, mut next_id) = match current {
                    Some(TableConstraints::Enum { choices, mapping, next_id }) => (
                        copy_strings(choices),
                        mapping.copy(),
                        *next_id,
                    ),
                    _ => (Vec::new(), EnumMapping::new(), 1u16),
                };
                proof {
                    assert(str_views(Seq::<String>::empty()) =~= Seq::<Seq<char>>::empty());
                }
                if let Some(new_choices) = choices {
                    current_choices = new_choices;
                }
                if let Some(adds) = add_choices {
                    add_missing_names(&mut current_choices, adds);
                }
                if let Some(removes) = remove_choices {
                    current_choices = without_names(&current_choices, &removes);
                }
                match assign_enum_ids(&current_choices, &mut mapping, &mut next_id) {
                    Ok(()) => Ok(Some(TableConstraints::Enum { choices: current_choices, mapping, next_id })),
                    Err(e) => Err(e),
                }
            },
            (TableDataType::Presence, _) => Err(ConstraintError::PresenceHasNoConstraints),
            (_, _) => Err(ConstraintError::TypeMismatch),
        }
    }

    /// The constraints a new table of type `data_type` is created with: an enum
    /// table's choices get their numbers, and an enum table without choices is
    /// refused; other tables keep what they were given.
    pub fn with_enum_ids(data_type: TableDataType, constraints: Option<TableConstraints>) -> (r: Result<
        Option<TableConstraints>,
        ConstraintError,
    >)
        ensures
            match spec_with_enum_ids(data_type, opt_constraints(constraints)) {
                Ok(v) => r is Ok && opt_constraints(r->Ok_0) == v,
                Err(e) => r == Err::<Option<TableConstraints>, ConstraintError>(e),
            },
    {
        match data_type {
            TableDataType::Enum => match constraints {
                Some(TableConstraints::Enum { choices, mut mapping, mut next_id }) => {
                    match assign_enum_ids(&choices, &mut mapping, &mut next_id) {
                        Ok(()) => Ok(Some(TableConstraints::Enum { choices, mapping, next_id })),
                        Err(e) => Err(e),
                    }
                },
                _ => Err(ConstraintError::EnumRequiresChoices),
            },
            _ => Ok(constraints),
        }
    }
}

/// Updating a text table's length bounds changes only the bounds the update gives: a
/// bound left out keeps the table's current bound (none, if the table had no text
/// constraints), a bound given as `Some(None)` is lifted, and one given as
/// `Some(Some(v))` becomes `v`.
pub proof fn lemma_text_update_keeps_bounds_not_given(
    current: Option<ConstraintsView>,
    min_length: Option<Option<u32>>,
    max_length: Option<Option<u32>>,
)
    ensures
        spec_merged(TableDataType::Text, current, UpdateView::Text { min_length, max_length }) matches Ok(
            Some(ConstraintsView::Text { min_length: new_min, max_length: new_max }),
        ) && {
            let (cur_min, cur_max) = match current {
                Some(ConstraintsView::Text { min_length, max_length }) => (min_length, max_length),
                _ => (None, None),
            };
            &&& min_length is None ==> new_min == cur_min
            &&& min_length matches Some(v) ==> new_min == v
            &&& max_length is None ==> new_max == cur_max
            &&& max_length matches Some(v) ==> new_max == v
        },
{
}

/// Updating an integer table's bounds changes only the bounds the update gives: a
/// bound left out keeps the table's current bound (none, if the table had no integer
/// constraints), a bound given as `Some(None)` is lifted, and one given as
/// `Some(Some(v))` becomes `v`.
pub proof fn lemma_int_update_keeps_bounds_not_given(
    current: Option<ConstraintsView>,
    min: Option<Option<i64>>,
    max: Option<Option<i64>>,
)
    ensures
        spec_merged(TableDataType::Int, current, UpdateView::Int { min, max }) matches Ok(
            Some(ConstraintsView::Int { min: new_min, max: new_max }),
        ) && {
            let (cur_min, cur_max) = match current {
                Some(ConstraintsView::Int { min, max }) => (min, max),
                _ => (None, None),
            };
            &&& min is None ==> new_min == cur_min
            &&& min matches Some(v) ==> new_min == v
            &&& max is None ==> new_max == cur_max
            &&& max matches Some(v) ==> new_max == v
        },
{
}

/// An update that gives no bound leaves a text or integer table's constraints as they
/// were.
pub proof fn lemma_empty_update_changes_nothing(current: ConstraintsView)
    ensures
        current is Text ==> spec_merged(
            TableDataType::Text,
            Some(current),
            UpdateView::Text { min_length: None, max_length: None },
        ) == Ok::<Option<ConstraintsView>, ConstraintError>(Some(current)),
        current is Int ==> spec_merged(TableDataType::Int, Some(current), UpdateView::Int { min: None, max: None })
            == Ok::<Option<ConstraintsView>, ConstraintError>(Some(current)),
{
}

/// Adding names keeps the list as it was at its front, and then holds exactly the
/// names of the list and the names added.
pub proof fn lemma_add_missing_holds_both(base: Seq<Seq<char>>, adds: Seq<Seq<char>>, x: Seq<char>)
    ensures
        add_missing(base, adds).len() >= base.len(),
        add_missing(base, adds).subrange(0, base.len() as int) == base,
        add_missing(base, adds).contains(x) <==> base.contains(x) || adds.contains(x),
    decreases adds.len(),
{
    if adds.len() > 0 {
        let init = adds.drop_last();
        lemma_add_missing_holds_both(base, init, x);
        let b = add_missing(base, init);
        assert(b.push(adds.last()).subrange(0, base.len() as int) =~= b.subrange(0, base.len() as int));
        if init.contains(x) {
            let k = choose|k: int| 0 <= k < init.len() && init[k] == x;
            assert(adds[k] == x);
        }
        if adds.contains(x) && x != adds.last() {
            let k = choose|k: int| 0 <= k < adds.len() && adds[k] == x;
            assert(init[k] == x);
        }
        if x == adds.last() {
            assert(adds[adds.len() - 1] == x);
        }
        if b.contains(x) && !b.contains(adds.last()) {
            let k = choose|k: int| 0 <= k < b.len() && b[k] == x;
            assert(b.push(adds.last())[k] == x);
        }
        if !b.contains(adds.last()) {
            assert(b.push(adds.last())[b.len() as int] == adds.last());
            if b.push(adds.last()).contains(x) && x != adds.last() {
                let k = choose|k: int| 0 <= k < b.len() + 1 && b.push(adds.last())[k] == x;
                assert(b[k] == x);
            }
        }
    }
}

/// Removing names keeps exactly the names of the list that are not removed.
pub proof fn lemma_without_drops_exactly(base: Seq<Seq<char>>, removes: Seq<Seq<char>>, x: Seq<char>)
    ensures
        without(base, removes).contains(x) <==> base.contains(x) && !removes.contains(x),
    decreases base.len(),
{
    if base.len() > 0 {
        let init = base.drop_last();
        lemma_without_drops_exactly(init, removes, x);
        let rest = without(init, removes);
        if init.contains(x) {
            let k = choose|k: int| 0 <= k < init.len() && init[k] == x;
            assert(base[k] == x);
        }
        if base.contains(x) && x != base.last() {
            let k = choose|k: int| 0 <= k < base.len() && base[k] == x;
            assert(init[k] == x);
        }
        if x == base.last() {
            assert(base[base.len() - 1] == x);
        }
        if !removes.contains(base.last()) {
            assert(rest.push(base.last())[rest.len() as int] == base.last());
            if rest.contains(x) {
                let k = choose|k: int| 0 <= k < rest.len() && rest[k] == x;
                assert(rest.push(base.last())[k] == x);
            }
            if rest.push(base.last()).contains(x) && x != base.last() {
                let k = choose|k: int| 0 <= k < rest.len() + 1 && rest.push(base.last())[k] == x;
                assert(rest[k] == x);
            }
        }
    }
}

/// Updating an enum table's choices: a choice is allowed afterwards exactly when it is
/// in the new list (or, when no list is given, the table's current choices) or among
/// those added, and not among those removed.
pub proof fn lemma_enum_update_choices(
    current: Option<ConstraintsView>,
    choices: Option<Seq<Seq<char>>>,
    adds: Option<Seq<Seq<char>>>,
    removes: Option<Seq<Seq<char>>>,
    x: Seq<char>,
)
    ensures
        spec_merged(
            TableDataType::Enum,
            current,
            UpdateView::Enum { choices, add_choices: adds, remove_choices: removes },
        ) matches Ok(Some(ConstraintsView::Enum { choices: merged, .. })) ==> (merged.contains(x) <==> {
            let base = match choices {
                Some(c) => c,
                None => match current {
                    Some(ConstraintsView::Enum { choices, .. }) => choices,
                    _ => Seq::empty(),
                },
            };
            &&& base.contains(x) || (adds matches Some(a) && a.contains(x))
            &&& !(removes matches Some(r) && r.contains(x))
        }),
{
    let base = match choices {
        Some(c) => c,
        None => match current {
            Some(ConstraintsView::Enum { choices, .. }) => choices,
            _ => Seq::empty(),
        },
    };
    if let Some(a) = adds {
        lemma_add_missing_holds_both(base, a, x);
    }
    let added = match adds {
        Some(a) => add_missing(base, a),
        None => base,
    };
    if let Some(r) = removes {
        lemma_without_drops_exactly(added, r, x);
    }
}

/// An update is refused when it does not fit the table: a presence table takes no
/// constraints at all, and any other table only an update of its own type. An update
/// of the table's own type is refused only when the enum numbers run out.
pub proof fn lemma_update_must_fit_the_table(data_type: TableDataType, current: Option<ConstraintsView>, update: UpdateView)
    ensures
        data_type is Presence ==> spec_merged(data_type, current, update)
            == Err::<Option<ConstraintsView>, ConstraintError>(ConstraintError::PresenceHasNoConstraints),
        !(data_type is Presence) && !((data_type is Text && update is Text) || (data_type is Int && update is Int) || (
        data_type is Enum && update is Enum)) ==> spec_merged(data_type, current, update) == Err::<
            Option<ConstraintsView>,
            ConstraintError,
        >(ConstraintError::TypeMismatch),
        (data_type is Text && update is Text) || (data_type is Int && update is Int) ==> spec_merged(
            data_type,
            current,
            update,
        ) is Ok,
        data_type is Enum && update is Enum && spec_merged(data_type, current, update) is Err ==> spec_merged(
            data_type,
            current,
            update,
        ) == Err::<Option<ConstraintsView>, ConstraintError>(ConstraintError::EnumIdsExhausted),
{
    if data_type is Enum && update is Enum {
        let (cc, cm, cn) = match current {
            Some(ConstraintsView::Enum { choices, mapping, next_id }) => (choices, mapping, next_id),
            _ => (Seq::empty(), Map::empty(), 1u16),
        };
        let merged = match update {
            UpdateView::Enum { choices, add_choices, remove_choices } => merged_choices(cc, choices, add_choices, remove_choices),
            _ => Seq::empty(),
        };
        lemma_assign_err_is_exhausted(merged, cm, cn);
    }
}

/// A table that is not an enum table is created with exactly the constraints it was
/// given (or none); only enum tables have theirs rewritten, to number their choices.
pub proof fn lemma_non_enum_tables_keep_constraints(data_type: TableDataType, c: Option<ConstraintsView>)
    requires
        !(data_type is Enum),
    ensures
        spec_with_enum_ids(data_type, c) == Ok::<Option<ConstraintsView>, ConstraintError>(c),
{
}

/// An enum table is created with the choices it was given, in their order; only their
/// numbers are filled in.
pub proof fn lemma_enum_table_keeps_choices(choices: Seq<Seq<char>>, mapping: Map<Seq<char>, u16>, next_id: u16)
    ensures
        spec_with_enum_ids(
            TableDataType::Enum,
            Some(ConstraintsView::Enum { choices, mapping, next_id }),
        ) matches Ok(Some(ConstraintsView::Enum { choices: kept, .. })) ==> kept == choices,
        spec_with_enum_ids(TableDataType::Enum, None) is Err,
{
}

/// A choice keeps its number: handing out numbers never changes the number of a
/// choice that already had one.
pub proof fn lemma_assigned_ids_are_kept(
    choices: Seq<Seq<char>>,
    mapping: Map<Seq<char>, u16>,
    next_id: u16,
    k: Seq<char>,
)
    requires
        mapping.contains_key(k),
        assign_ids(choices, mapping, next_id) is Ok,
    ensures
        assign_ids(choices, mapping, next_id)->Ok_0.0.contains_key(k),
        assign_ids(choices, mapping, next_id)->Ok_0.0[k] == mapping[k],
    decreases choices.len(),
{
    if choices.len() > 0 {
        lemma_assigned_ids_are_kept(choices.drop_last(), mapping, next_id, k);
    }
}

/// Every choice has a number once numbers are handed out.
pub proof fn lemma_every_choice_numbered(
    choices: Seq<Seq<char>>,
    mapping: Map<Seq<char>, u16>,
    next_id: u16,
    i: int,
)
    requires
        0 <= i < choices.len(),
        assign_ids(choices, mapping, next_id) is Ok,
    ensures
        assign_ids(choices, mapping, next_id)->Ok_0.0.contains_key(choices[i]),
    decreases choices.len(),
{
    if i < choices.len() - 1 {
        lemma_every_choice_numbered(choices.drop_last(), mapping, next_id, i);
        let (m, n) = assign_ids(choices.drop_last(), mapping, next_id)->Ok_0;
        assert(choices.drop_last()[i] == choices[i]);
    }
}

/// Numbers are never reused: a number handed out is at least the next number before,
/// not 0, and below the next number after, so it differs from every number given
/// before, as long as those were below the next number.
pub proof fn lemma_new_ids_are_fresh(
    choices: Seq<Seq<char>>,
    mapping: Map<Seq<char>, u16>,
    next_id: u16,
    k: Seq<char>,
)
    requires
        !mapping.contains_key(k),
        assign_ids(choices, mapping, next_id) is Ok,
        assign_ids(choices, mapping, next_id)->Ok_0.0.contains_key(k),
    ensures
        next_id <= assign_ids(choices, mapping, next_id)->Ok_0.0[k],
        0 < assign_ids(choices, mapping, next_id)->Ok_0.0[k],
        assign_ids(choices, mapping, next_id)->Ok_0.0[k] < assign_ids(choices, mapping, next_id)->Ok_0.1,
    decreases choices.len(),
{
    if choices.len() > 0 {
        let init = choices.drop_last();
        let (m, n) = assign_ids(init, mapping, next_id)->Ok_0;
        lemma_assign_next_grows(init, mapping, next_id);
        if m.contains_key(k) {
            lemma_new_ids_are_fresh(init, mapping, next_id, k);
        }
    }
}

proof fn lemma_assign_next_grows(choices: Seq<Seq<char>>, mapping: Map<Seq<char>, u16>, next_id: u16)
    requires
        assign_ids(choices, mapping, next_id) is Ok,
    ensures
        next_id <= assign_ids(choices, mapping, next_id)->Ok_0.1,
    decreases choices.len(),
{
    if choices.len() > 0 {
        lemma_assign_next_grows(choices.drop_last(), mapping, next_id);
    }
}

} // verus!
