//! Privilege rules between their two forms: by name, as users write them, and by
//! identifier, as they are stored.
//!
//! Resolving looks every name up, which the caller does; here is what is decided
//! around the lookups. Rules for the same target fold into one when they give the same
//! role, and are refused when they give different roles, so the effective role is
//! never silently the larger one.

use vstd::prelude::*;
use vstd::string::StringExecFns;

use crate::keymap::keys_equal;
use crate::models::{DataRole, DatabaseId, TableId};
use crate::text::{push_decimal, spec_decimal};

verus! {

/// What a stored privilege applies to.
#[derive(Debug, Clone, Copy)]
pub enum StoredTarget {
    Global,
    Database(DatabaseId),
    Table(DatabaseId, TableId),
}

/// A target as plain values.
pub enum TargetView {
    Global,
    Database(Seq<u8>),
    Table(Seq<u8>, Seq<u8>),
}

impl View for StoredTarget {
    type V = TargetView;

    open spec fn view(&self) -> TargetView {
        match self {
            StoredTarget::Global => TargetView::Global,
            StoredTarget::Database(d) => TargetView::Database(d@),
            StoredTarget::Table(d, t) => TargetView::Table(d@, t@),
        }
    }
}

/// A privilege as stored: a role on a target named by identifiers.
#[derive(Debug, Clone, Copy)]
pub struct StoredPrivilege {
    pub target: StoredTarget,
    pub role: DataRole,
}

/// A privilege as users write it: a role on a target named by names.
pub enum PrivilegeRule {
    Global { role: DataRole },
    Database { db_name: String, role: DataRole },
    Table { db_name: String, table_name: String, role: DataRole },
}

/// Two rules name the same target with different roles.
#[derive(Debug, Clone, Copy, PartialEq, Eq)]
pub struct ConflictingRoles;

impl ConflictingRoles {
    pub fn reason(&self) -> (r: String)
        ensures
            r@ == "conflicting roles were given for the same target"@,
    {
        String::from_str("conflicting roles were given for the same target")
    }
}

/// A request names more privilege rules than a user may hold.
#[derive(Debug, Clone, Copy, PartialEq, Eq)]
pub struct TooManyPrivileges {
    pub limit: usize,
}

impl TooManyPrivileges {
    pub fn reason(&self) -> (r: String)
        ensures
            r@ == "a user cannot hold more than "@ + spec_decimal(self.limit as nat) + " privileges"@,
    {
        let mut r = String::from_str("a user cannot hold more than ");
        push_decimal(&mut r, self.limit as u64);
        r.append(" privileges");
        r
    }
}

/// The check made before any name is resolved (resolving looks each rule up, so a
/// request that is refused anyway is refused first): at most `limit` rules.
pub fn check_rule_count(count: usize, limit: usize) -> (r: Result<(), TooManyPrivileges>)
    ensures
        r is Ok <==> count <= limit,
        r matches Err(e) ==> e.limit == limit,
{
    if count > limit {
        Err(TooManyPrivileges { limit })
    } else {
        Ok(())
    }
}

/// Whether two targets are the same.
pub fn same_target(a: &StoredTarget, b: &StoredTarget) -> (eq: bool)
    ensures
        eq == (a@ == b@),
{
    match (a, b) {
        (StoredTarget::Global, StoredTarget::Global) => true,
        (StoredTarget::Database(x), StoredTarget::Database(y)) => keys_equal(x.0.as_slice(), y.0.as_slice()),
        (StoredTarget::Table(x, s), StoredTarget::Table(y, t)) => keys_equal(x.0.as_slice(), y.0.as_slice())
            && keys_equal(s.0.as_slice(), t.0.as_slice()),
        _ => false,
    }
}

pub open spec fn role_of(s: Seq<StoredPrivilege>, target: TargetView) -> Option<DataRole> {
    if exists|i: int| 0 <= i < s.len() && #[trigger] s[i].target@ == target {
        Some(s[choose|i: int| 0 <= i < s.len() && #[trigger] s[i].target@ == target].role)
    } else {
        None
    }
}

/// The stored privileges resolved so far, one per target.
pub struct PrivilegeFold {
    resolved: Vec<StoredPrivilege>,
}

impl PrivilegeFold {
    pub closed spec fn entries(self) -> Seq<StoredPrivilege> {
        self.resolved@
    }

    /// No two entries have the same target.
    pub open spec fn distinct_targets(s: Seq<StoredPrivilege>) -> bool {
        forall|i: int, j: int| 0 <= i < j < s.len() ==> #[trigger] s[i].target@ != #[trigger] s[j].target@
    }

    pub closed spec fn wf(self) -> bool {
        Self::distinct_targets(self.resolved@)
    }

    pub fn new() -> (f: PrivilegeFold)
        ensures
            f.wf(),
            f.entries().len() == 0,
    {
        PrivilegeFold { resolved: Vec::new() }
    }

    /// Adds a resolved rule. A rule for a target already present is folded into it
    /// when the roles agree and refused when they do not; a rule for a new target is
    /// appended.
    pub fn add(&mut self, p: StoredPrivilege) -> (r: Result<(), ConflictingRoles>)
        requires
            old(self).wf(),
        ensures
            final(self).wf(),
            match role_of(old(self).entries(), p.target@) {
                Some(role) => if role == p.role {
                    r is Ok && final(self).entries() == old(self).entries()
                } else {
                    r is Err && final(self).entries() == old(self).entries()
                },
                None => r is Ok && final(self).entries() == old(self).entries().push(p),
            },
    {
        let mut i: usize = 0;
        while i < self.resolved.len()
            invariant
                i <= self.resolved@.len(),
                self.resolved@ == old(self).resolved@,
                Self::distinct_targets(self.resolved@),
                forall|j: int| 0 <= j < i ==> #[trigger] self.resolved@[j].target@ != p.target@,
            decreases self.resolved@.len() - i,
        {
            if same_target(&self.resolved[i].target, &p.target) {
                proof {
                    let s = self.resolved@;
                    let k = choose|k: int| 0 <= k < s.len() && #[trigger] s[k].target@ == p.target@;
                    assert(s[i as int].target@ == p.target@);
                    if k != i {
                        if k < i {
                            assert(s[k].target@ != p.target@);
                        } else {
                            assert(s[i as int].target@ != s[k].target@);
                        }
                    }
                }
                if self.resolved[i].role == p.role {
                    return Ok(());
                }
                return Err(ConflictingRoles);
            }
            i += 1;
        }
        self.resolved.push(p);
        proof {
            let s = self.resolved@;
            assert forall|a: int, b: int| 0 <= a < b < s.len() implies #[trigger] s[a].target@ != #[trigger] s[b].target@ by {
                if b == s.len() - 1 {
                    assert(s[a] == old(self).resolved@[a]);
                } else {
                    assert(s[a] == old(self).resolved@[a]);
                    assert(s[b] == old(self).resolved@[b]);
                }
            }
        }
        Ok(())
    }

    /// The resolved privileges, in the order their targets first appeared.
    pub fn into_privileges(self) -> (v: Vec<StoredPrivilege>)
        ensures
            v@ == self.entries(),
    {
        self.resolved
    }
}

/// A stored privilege written back with names. `db_name` is the name of the target's
/// database, `table` the database that owns the target's table and the table's name.
/// A privilege whose database or table no longer has a name (it was removed) is left
/// out, and so is a table privilege whose table belongs to another database than the
/// one it names: such a row does not grant anything either, so what is shown stays
/// what takes effect.
pub fn render_privilege(p: &StoredPrivilege, db_name: Option<String>, table: Option<(DatabaseId, String)>) -> (r:
    Option<PrivilegeRule>)
    ensures
        match p.target {
            StoredTarget::Global => r == Some(PrivilegeRule::Global { role: p.role }),
            StoredTarget::Database(_) => match db_name {
                Some(d) => r == Some(PrivilegeRule::Database { db_name: d, role: p.role }),
                None => r is None,
            },
            StoredTarget::Table(db, _) => match (db_name, table) {
                (Some(d), Some((owner, t))) => if owner@ == db@ {
                    r == Some(PrivilegeRule::Table { db_name: d, table_name: t, role: p.role })
                } else {
                    r is None
                },
                _ => r is None,
            },
        },
{
    match p.target {
        StoredTarget::Global => Some(PrivilegeRule::Global { role: p.role }),
        StoredTarget::Database(_) => match db_name {
            Some(d) => Some(PrivilegeRule::Database { db_name: d, role: p.role }),
            None => None,
        },
        StoredTarget::Table(db, _) => match (db_name, table) {
            (Some(d), Some((owner, t))) => {
                if keys_equal(owner.0.as_slice(), db.0.as_slice()) {
                    Some(PrivilegeRule::Table { db_name: d, table_name: t, role: p.role })
                } else {
                    None
                }
            },
            _ => None,
        },
    }
}

/// Folding never keeps two privileges for one target, and what it keeps for a target
/// is the role first given for it.
pub proof fn lemma_fold_keeps_first_role(s: Seq<StoredPrivilege>, p: StoredPrivilege)
    requires
        PrivilegeFold::distinct_targets(s),
        role_of(s, p.target@) is None,
    ensures
        PrivilegeFold::distinct_targets(s.push(p)),
        role_of(s.push(p), p.target@) == Some(p.role),
{
    let t = s.push(p);
    assert forall|a: int, b: int| 0 <= a < b < t.len() implies #[trigger] t[a].target@ != #[trigger] t[b].target@ by {
        if b == t.len() - 1 {
            assert(t[a] == s[a]);
        } else {
            assert(t[a] == s[a]);
            assert(t[b] == s[b]);
        }
    }
    assert(t[t.len() - 1].target@ == p.target@);
    let k = choose|k: int| 0 <= k < t.len() && #[trigger] t[k].target@ == p.target@;
    if k < t.len() - 1 {
        assert(s[k].target@ == p.target@);
    }
}

} // verus!
