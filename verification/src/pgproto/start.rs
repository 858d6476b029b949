//! The start of a COPY: what is asked of the table, and the session that comes of it.
use crate::errors::{map_copy_target_error, target_error_answer, CopyTargetError, PgResult};
use crate::pgproto::copy_in::CopyStart;
use crate::pgproto::session::{fresh_state, CopySession, CopySettings};
use crate::pgproto::spec::{
    CopySpec, DEFAULT_COPY_BATCH_BYTES, DEFAULT_COPY_BATCH_SIZE, DEFAULT_COPY_RECORD_BYTES,
};
use crate::storage::direct_insert::ConflictPolicy;
use crate::storage::target::PreparedCopyTarget;
use crate::text::smol_text;
use postgres_types::{Oid, Type};
use smol_str::SmolStr;
use vstd::prelude::*;

verus! {

/// The OID that a `postgres_types::Type` carries.
pub uninterp spec fn type_oid(field_type: Type) -> Oid;

/// `Type::oid` gives the OID of the type.
pub assume_specification[ Type::oid ](field_type: &Type) -> (oid: Oid)
    ensures
        oid == type_oid(*field_type),
;

/// What is asked of the table before a COPY into it starts.
#[derive(Clone, Copy, Debug)]
pub struct CopyTargetRequest<'a> {
    pub schema_name: Option<&'a SmolStr>,
    pub table_name: &'a SmolStr,
    pub columns: &'a Vec<SmolStr>,
    pub conflict_policy: ConflictPolicy,
}

/// What is asked of the table of a COPY. A row whose key is in the table already makes the COPY
/// fail.
pub fn copy_target_request(spec: &CopySpec) -> (request: CopyTargetRequest<'_>)
    ensures
        match spec.schema_name {
            Some(name) => request.schema_name matches Some(asked) && *asked == name,
            None => request.schema_name is None,
        },
        *request.table_name == spec.table_name,
        *request.columns == spec.columns,
        request.conflict_policy == ConflictPolicy::DoFail,
{
    CopyTargetRequest {
        schema_name: match &spec.schema_name {
            Some(name) => Some(name),
            None => None,
        },
        table_name: &spec.table_name,
        columns: &spec.columns,
        conflict_policy: ConflictPolicy::DoFail,
    }
}

/// The OID of the type of a column.
pub fn copy_field_oid(field_type: &Type) -> (oid: Oid)
    ensures
        oid == type_oid(*field_type),
{
    field_type.oid()
}

/// The OIDs of types.
pub open spec fn type_oids(types: Seq<Type>) -> Seq<Oid> {
    types.map_values(|field_type: Type| type_oid(field_type))
}

fn copy_field_oids(types: &Vec<Type>) -> (oids: Vec<Oid>)
    ensures
        oids@ == type_oids(types@),
{
    let mut oids: Vec<Oid> = Vec::new();
    let mut idx: usize = 0;
    while idx < types.len()
        invariant
            idx <= types@.len(),
            oids@ == type_oids(types@.take(idx as int)),
        decreases types@.len() - idx,
    {
        oids.push(copy_field_oid(&types[idx]));
        idx += 1;
        assert(oids@ =~= type_oids(types@.take(idx as int)));
    }
    assert(types@.take(idx as int) =~= types@);
    oids
}

/// What does not change during a session for a COPY into a table.
pub open spec fn started_settings<V, C>(
    spec: CopySpec,
    target: PreparedCopyTarget<V, C>,
) -> CopySettings {
    CopySettings {
        table_name: smol_text(target.table_name),
        field_oids: type_oids(target.field_types@),
        delimiter: spec.delimiter,
        null_marker: spec.null_marker@,
        header: spec.header,
        batch_size: DEFAULT_COPY_BATCH_SIZE as nat,
        batch_byte_limit: DEFAULT_COPY_BATCH_BYTES as nat,
        record_byte_limit: DEFAULT_COPY_RECORD_BYTES as nat,
    }
}

/// Starts a session for a COPY into a table that was asked what `copy_target_request` says.
pub fn start_copy<V, C>(
    spec: CopySpec,
    prepared: Result<PreparedCopyTarget<V, C>, CopyTargetError>,
) -> (result: PgResult<(CopyStart, CopySession, PreparedCopyTarget<V, C>)>)
    ensures
        match prepared {
            Ok(target) => {
                &&& result matches Ok((start, session, kept))
                &&& kept == target
                &&& start.column_count == target.field_types@.len()
                &&& session.wf()
                &&& session@ == fresh_state()
                &&& session.settings() == started_settings(spec, target)
            },
            Err(error) => result matches Err(answer) && answer@ == target_error_answer(error@),
        },
{
    let target = match prepared {
        Ok(target) => target,
        Err(error) => return Err(map_copy_target_error(error)),
    };
    let field_oids = copy_field_oids(target.field_types());
    let start = CopyStart { column_count: field_oids.len() };
    let table_name = target.table_name().clone();
    let session = CopySession::new(
        table_name,
        field_oids,
        spec.delimiter,
        spec.null_marker,
        spec.header,
        DEFAULT_COPY_BATCH_SIZE,
        DEFAULT_COPY_BATCH_BYTES,
        DEFAULT_COPY_RECORD_BYTES,
    );
    Ok((start, session, target))
}

}
