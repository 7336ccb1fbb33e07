//! A scrubbing pass: removes the values of fields of one sensitivity class.

use vstd::prelude::*;
use crate::meta::{Annotated, Remark, RemarkKind, Value};
use crate::schema::{PiiKind, Record, Tagged, Typed};
use crate::walk::{Frame, ProcessingState, Processor};

verus! {

/// Removes every present value of a field declared with sensitivity class
/// `kind`, noting the removal as a remark under `rule_id`. Where
/// `drop_empty_records` is set, its record hook drops a record left with
/// no field value and no collected entry.
pub struct PiiScrubber {
    pub kind: PiiKind,
    pub rule_id: String,
    pub drop_empty_records: bool,
}

/// The sensitivity class of the innermost frame's field.
pub open spec fn frame_pii_kind(path: Seq<Frame>) -> Option<PiiKind> {
    if path.len() == 0 {
        None
    } else {
        match path.last().attrs {
            Some(a) => a.pii_kind,
            None => None,
        }
    }
}

/// A present record whose fields are all absent and that collected nothing.
pub open spec fn fully_removed(a: Annotated<Record>) -> bool {
    a.value matches Some(rec) && rec.other@.len() == 0
        && forall|i: int| 0 <= i < rec.fields@.len() ==> (#[trigger] rec.fields@[i]).value is None
}

impl PiiScrubber {
    /// The remark this pass records for a removal.
    pub open spec fn removal(&self) -> Remark {
        Remark { rule_id: self.rule_id, kind: RemarkKind::Removed, range: None }
    }
}

impl Processor for PiiScrubber {
    open spec fn field_processed(&self, a: Annotated<Typed>, path: Seq<Frame>, r: Annotated<Typed>) -> bool {
        if frame_pii_kind(path) == Some(self.kind) && a.value is Some {
            &&& r.value is None
            &&& r.meta.errors == a.meta.errors
            &&& r.meta.original_value == a.meta.original_value
            &&& r.meta.remarks@ == a.meta.remarks@.push(self.removal())
        } else {
            r == a
        }
    }

    open spec fn entry_processed(&self, a: Annotated<Value>, path: Seq<Frame>, r: Annotated<Value>) -> bool {
        r == a
    }

    open spec fn record_processed(&self, a: Annotated<Record>, path: Seq<Frame>, r: Annotated<Record>) -> bool {
        if self.drop_empty_records && fully_removed(a) {
            r == Annotated::<Record> { value: None, meta: a.meta }
        } else {
            r == a
        }
    }

    open spec fn tagged_processed(&self, a: Annotated<Tagged>, path: Seq<Frame>, r: Annotated<Tagged>) -> bool {
        r == a
    }

    fn process_field(&self, a: Annotated<Typed>, state: &ProcessingState) -> (r: Annotated<Typed>) {
        let matches_kind = match state.attrs() {
            Some(attrs) => match attrs.pii_kind {
                Some(k) => k == self.kind,
                None => false,
            },
            None => false,
        };
        if matches_kind && a.value.is_some() {
            let Annotated { value: _, mut meta } = a;
            meta.add_remark(Remark { rule_id: self.rule_id.clone(), kind: RemarkKind::Removed, range: None });
            Annotated { value: None, meta }
        } else {
            a
        }
    }

    fn process_entry(&self, a: Annotated<Value>, state: &ProcessingState) -> (r: Annotated<Value>) {
        a
    }

    fn process_record(&self, a: Annotated<Record>, state: &ProcessingState) -> (r: Annotated<Record>) {
        if !self.drop_empty_records {
            return a;
        }
        let empty = match &a.value {
            Some(rec) => {
                let mut all_absent = rec.other.len() == 0;
                let mut i: usize = 0;
                while i < rec.fields.len()
                    invariant
                        i <= rec.fields@.len(),
                        all_absent == (rec.other@.len() == 0
                            && forall|j: int| 0 <= j < i ==> (#[trigger] rec.fields@[j]).value is None),
                    decreases rec.fields@.len() - i,
                {
                    if rec.fields[i].value.is_some() {
                        all_absent = false;
                    }
                    i = i + 1;
                }
                all_absent
            },
            None => false,
        };
        if empty {
            let Annotated { value: _, meta } = a;
            Annotated { value: None, meta }
        } else {
            a
        }
    }

    fn process_tagged(&self, a: Annotated<Tagged>, state: &ProcessingState) -> (r: Annotated<Tagged>) {
        a
    }
}

} // verus!
