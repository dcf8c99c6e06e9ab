//! General properties of the decoder, proved once over all inputs.
use vstd::prelude::*;

use crate::encoding::TextEncoding;
use crate::header::FieldType;
use crate::reader::{
    live_rows, rows_match, schema_matches, spec_deleted, spec_desc_type, spec_table_has_memo,
    tag_label_chars,
};
use crate::header::spec_record_count;
use crate::value::OutValue;

verus! {

proof fn lemma_live_rows_len(s: Seq<u8>, n: int)
    requires
        n >= 0,
    ensures
        live_rows(s, n).len() <= n,
        live_rows(s, n).len() == n <==> (forall|i: int| 0 <= i < n ==> !spec_deleted(s, i)),
    decreases n,
{
    if n > 0 {
        lemma_live_rows_len(s, n - 1);
        if !spec_deleted(s, n - 1) {
            if forall|i: int| 0 <= i < n ==> !spec_deleted(s, i) {
                assert(forall|i: int| 0 <= i < n - 1 ==> !spec_deleted(s, i));
            }
        }
    }
}

/// For every well-formed read, the number of returned records is at most
/// the declared record count, and equals it exactly when no record
/// carries the deleted marker.
pub proof fn lemma_returned_rows_bound(
    rows: Seq<Vec<(String, OutValue)>>,
    s: Seq<u8>,
    e: TextEncoding,
    m: Option<Seq<u8>>,
)
    requires
        rows_match(rows, s, e, m),
    ensures
        rows.len() <= spec_record_count(s),
        rows.len() == spec_record_count(s) <==> (forall|i: int|
            0 <= i < spec_record_count(s) ==> !spec_deleted(s, i)),
{
    lemma_live_rows_len(s, spec_record_count(s));
}

/// A table declares a memo field exactly when the schema map a read of
/// the same table returns holds the tag `"Memo"` for at least one field.
pub proof fn lemma_needs_memo_iff_schema(ft: Seq<(String, String)>, s: Seq<u8>)
    requires
        schema_matches(ft, s),
    ensures
        spec_table_has_memo(s) <==> exists|k: int|
            0 <= k < ft.len() && (#[trigger] ft[k]).1@ == "Memo"@,
{
    assert forall|k: int| 0 <= k < ft.len() implies ((#[trigger] ft[k]).1@ == "Memo"@
        <==> spec_desc_type(s, k) == FieldType::Memo) by {
        reveal_strlit("Character");
        reveal_strlit("Numeric");
        reveal_strlit("Float");
        reveal_strlit("Integer");
        reveal_strlit("Date");
        reveal_strlit("DateTime");
        reveal_strlit("Logical");
        reveal_strlit("Currency");
        reveal_strlit("Memo");
        let t = spec_desc_type(s, k);
        if t != FieldType::Memo {
            if tag_label_chars(t) == "Memo"@ {
                assert(tag_label_chars(t)[0] == "Memo"@[0]);
                assert(tag_label_chars(t).len() == "Memo"@.len());
                assert(false);
            }
        }
    }
    if spec_table_has_memo(s) {
        let k = choose|k: int|
            0 <= k < crate::header::spec_field_count(s) && #[trigger] spec_desc_type(s, k)
                == FieldType::Memo;
        assert(ft[k].1@ == "Memo"@);
    }
    if exists|k: int| 0 <= k < ft.len() && (#[trigger] ft[k]).1@ == "Memo"@ {
        let k = choose|k: int| 0 <= k < ft.len() && (#[trigger] ft[k]).1@ == "Memo"@;
        assert(spec_desc_type(s, k) == FieldType::Memo);
        assert(spec_table_has_memo(s));
    }
}

} // verus!
