//! The handle a protocol runs under: who this helper is, which step it is
//! in, and the randomness that belongs to that step.

use vstd::prelude::*;
use crate::error::Error;
use crate::ff::Field;
use crate::helpers::Role;
use crate::protocol::prss::{lemma_derived_key_concat, record_values, PrssEndpoint, PrssLedger};
use crate::protocol::step::{narrowed, RecordId, Step, Substep, TotalRecords, SEPARATOR};

verus! {

/// A step-scoped handle. Narrowing gives the handle of a child step; the
/// keys of a handle are always those of its helper for its step.
#[derive(Debug)]
pub struct Context {
    role: Role,
    step: Step,
    total_records: Option<TotalRecords>,
    root: PrssEndpoint,
    keys: PrssEndpoint,
}

impl Context {
    /// The helper this handle belongs to.
    pub closed spec fn spec_role(&self) -> Role {
        self.role
    }

    /// The path of the current step.
    pub closed spec fn path(&self) -> Seq<u8> {
        self.step@
    }

    /// The total number of records, if it was set.
    pub closed spec fn spec_total_records(&self) -> Option<TotalRecords> {
        self.total_records
    }

    /// The keys of this helper before any step was entered.
    pub closed spec fn root_keys(&self) -> PrssEndpoint {
        self.root
    }

    /// The keys of this helper for the current step.
    pub closed spec fn keys(&self) -> PrssEndpoint {
        self.keys
    }

    /// The keys are the root keys with the path absorbed.
    pub open spec fn wf(&self) -> bool {
        self.keys() == self.root_keys().spec_narrow(self.path())
    }

    /// The keys of this helper for the child step that `label` names.
    pub open spec fn child_keys(&self, label: Seq<u8>) -> PrssEndpoint {
        self.root_keys().spec_narrow(narrowed(self.path(), label))
    }

    /// The handle of a helper at the root step, totals not yet set.
    pub fn new(role: Role, prss: PrssEndpoint) -> (ctx: Context)
        ensures
            ctx.wf(),
            ctx.spec_role() == role,
            ctx.path() == Seq::<u8>::empty(),
            ctx.spec_total_records() is None,
            ctx.root_keys() == prss,
    {
        Context { role, step: Step::root(), total_records: None, root: prss, keys: prss }
    }

    /// The handle of the child step that `substep` names. The child inherits
    /// the totals of its parent.
    pub fn narrow<S: Substep>(&self, substep: &S) -> (child: Context)
        requires
            self.wf(),
        ensures
            child.wf(),
            child.spec_role() == self.spec_role(),
            child.path() == narrowed(self.path(), substep.label()),
            child.spec_total_records() == self.spec_total_records(),
            child.root_keys() == self.root_keys(),
            child.keys() == self.child_keys(substep.label()),
    {
        let step = self.step.narrow(substep);
        let label: Vec<u8> = substep.to_bytes();
        let mut sep: Vec<u8> = Vec::new();
        sep.push(SEPARATOR);
        let keys = self.keys.narrow(sep.as_slice()).narrow(label.as_slice());
        proof {
            assert(sep@ =~= seq![SEPARATOR]);
            lemma_derived_key_concat(self.root.left, self.step@, sep@);
            lemma_derived_key_concat(self.root.right, self.step@, sep@);
            lemma_derived_key_concat(self.root.left, self.step@ + sep@, label@);
            lemma_derived_key_concat(self.root.right, self.step@ + sep@, label@);
        }
        Context { role: self.role, step, total_records: self.total_records, root: self.root, keys }
    }

    /// The same handle with the totals fixed. They can be fixed once.
    pub fn set_total_records(&self, total: TotalRecords) -> (r: Result<Context, Error>)
        requires
            self.wf(),
        ensures
            match r {
                Ok(ctx) => {
                    &&& self.spec_total_records() is None
                    &&& ctx.wf()
                    &&& ctx.spec_role() == self.spec_role()
                    &&& ctx.path() == self.path()
                    &&& ctx.root_keys() == self.root_keys()
                    &&& ctx.spec_total_records() == Some(total)
                },
                Err(e) => e == Error::TotalRecordsAlreadySet && self.spec_total_records() is Some,
            },
    {
        if self.total_records.is_some() {
            return Err(Error::TotalRecordsAlreadySet);
        }
        Ok(
            Context {
                role: self.role,
                step: self.step.duplicate(),
                total_records: Some(total),
                root: self.root,
                keys: self.keys,
            },
        )
    }

    /// Whether the totals are still open.
    pub fn is_total_records_unspecified(&self) -> (open: bool)
        ensures
            open == (self.spec_total_records() is None),
    {
        self.total_records.is_none()
    }

    /// The totals that channels of this step go by: what was set, and
    /// `Indeterminate` where nothing was.
    pub fn total_records(&self) -> (total: TotalRecords)
        ensures
            total == match self.spec_total_records() {
                Some(t) => t,
                None => TotalRecords::Indeterminate,
            },
    {
        match self.total_records {
            Some(t) => t,
            None => TotalRecords::Indeterminate,
        }
    }

    /// The helper this handle belongs to.
    pub fn role(&self) -> (role: Role)
        ensures
            role == self.spec_role(),
    {
        self.role
    }

    /// The current step.
    pub fn step(&self) -> (step: &Step)
        ensures
            step@ == self.path(),
    {
        &self.step
    }

    /// The keys of this helper for the current step.
    pub fn prss(&self) -> (keys: PrssEndpoint)
        ensures
            keys == self.keys(),
    {
        self.keys
    }

    /// A copy of this handle.
    pub fn duplicate(&self) -> (ctx: Context)
        ensures
            ctx.wf() == self.wf(),
            ctx.spec_role() == self.spec_role(),
            ctx.path() == self.path(),
            ctx.spec_total_records() == self.spec_total_records(),
            ctx.root_keys() == self.root_keys(),
            ctx.keys() == self.keys(),
    {
        Context {
            role: self.role,
            step: self.step.duplicate(),
            total_records: self.total_records,
            root: self.root,
            keys: self.keys,
        }
    }

    /// The correlated pair for a record of this step, as field elements.
    pub fn generate_fields<F: Field>(&self, record_id: RecordId) -> (pair: (F, F))
        ensures
            pair.0.as_int() == record_values(self.keys(), record_id@).0 as int % F::prime(),
            pair.1.as_int() == record_values(self.keys(), record_id@).1 as int % F::prime(),
    {
        self.keys.generate_fields(record_id)
    }

    /// The path of the child step that `label` names.
    pub open spec fn child_path(&self, label: Seq<u8>) -> Seq<u8> {
        narrowed(self.path(), label)
    }

    /// The correlated pair for a record of this step, drawn once: the draw
    /// is noted in the ledger of the helper, and a pair that was drawn
    /// before is refused.
    pub fn generate_fields_once<F: Field>(
        &self,
        ledger: &mut PrssLedger,
        record_id: RecordId,
    ) -> (r: Result<(F, F), Error>)
        ensures
            PrssLedger::noted(*old(ledger), *final(ledger), self.path(), record_id@, r is Ok),
            match r {
                Ok(pair) => {
                    &&& pair.0.as_int() == record_values(self.keys(), record_id@).0 as int
                        % F::prime()
                    &&& pair.1.as_int() == record_values(self.keys(), record_id@).1 as int
                        % F::prime()
                },
                Err(e) => e == Error::PrssReuse,
            },
    {
        match ledger.note(&self.step, record_id) {
            Ok(()) => Ok(self.keys.generate_fields(record_id)),
            Err(e) => Err(e),
        }
    }
}

} // verus!
