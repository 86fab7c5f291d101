//! What the store of registered servers decides around its statements.

use crate::db::DbFault;
use crate::ids::{McpServerId, OrgId, UserId};
use crate::mcp::error::McpError;
use crate::mcp::types::{
    ConnectionStatus, DiscoveredTool, McpDescription, McpServerAlias, McpServerRecord,
    McpTransport, McpTransportInput,
};
use crate::text::{text2, text_equal};
use crate::time::Timestamp;
use crate::types::ParseError;
use crate::web_url::parsed_url;
use vstd::prelude::*;

verus! {

/// A server to register.
#[derive(Debug)]
pub struct McpServerCreate {
    pub org_id: OrgId,
    pub created_by_user_id: UserId,
    pub alias: McpServerAlias,
    pub config: McpTransport,
    pub description: Option<McpDescription>,
    pub enabled: bool,
}

/// A change to a registered server. What is `None` stays as it is.
#[derive(Debug)]
pub struct McpServerUpdate {
    pub alias: Option<McpServerAlias>,
    pub config: Option<McpTransport>,
    /// `Some(None)` clears the description.
    pub description: Option<Option<McpDescription>>,
    pub enabled: Option<bool>,
}

/// What a refresh found out about a server.
#[derive(Debug)]
pub struct McpHealthUpdate {
    pub last_seen_at: Option<Timestamp>,
    pub last_error: Option<String>,
    /// The tools that were listed: none where the refresh did not get that far.
    pub discovered_tools: Option<Vec<DiscoveredTool>>,
}

/// A statement that the database driver refused.
#[derive(Debug)]
pub struct DriverFault {
    /// The SQLSTATE that the database gave, if it was the database that failed.
    pub sqlstate: Option<String>,
    /// The fault as the driver words it.
    pub detail: String,
}

/// The SQLSTATE of a unique constraint that does not hold.
pub const UNIQUE_VIOLATION: &'static str = "23505";

/// The record of a server that was just registered.
pub open spec fn created(payload: McpServerCreate, id: McpServerId, now: Timestamp) -> McpServerRecord {
    McpServerRecord {
        id,
        org_id: payload.org_id,
        alias: payload.alias,
        enabled: payload.enabled,
        config: payload.config,
        description: payload.description,
        last_seen_at: None,
        last_error: None,
        discovered_tools: None,
        created_by_user_id: payload.created_by_user_id,
        connection_status: ConnectionStatus::Healthy,
        created_at: now,
        updated_at: now,
    }
}

/// Decides on the registration of a server while `count` servers are
/// registered: the record to insert, unless `cap` is reached.
pub fn plan_create(
    count: i64,
    cap: usize,
    payload: McpServerCreate,
    id: McpServerId,
    now: Timestamp,
) -> (r: Result<McpServerRecord, McpError>)
    requires
        cap <= i64::MAX,
    ensures
        match r {
            Ok(rec) => count < cap && rec == created(payload, id, now),
            Err(e) => count >= cap && e == (McpError::ServerCapExceeded { max: cap }),
        },
{
    if count >= cap as i64 {
        return Err(McpError::ServerCapExceeded { max: cap });
    }
    Ok(
        McpServerRecord {
            id,
            org_id: payload.org_id,
            alias: payload.alias,
            enabled: payload.enabled,
            config: payload.config,
            description: payload.description,
            last_seen_at: None,
            last_error: None,
            discovered_tools: None,
            created_by_user_id: payload.created_by_user_id,
            connection_status: ConnectionStatus::Healthy,
            created_at: now,
            updated_at: now,
        },
    )
}

/// Whether the database refused a statement because a unique constraint does
/// not hold.
pub open spec fn unique_violation(fault: DriverFault) -> bool {
    fault.sqlstate matches Some(code) && code@ == UNIQUE_VIOLATION@
}

/// What a refused insert or update of a server with `alias` means: the alias is
/// the one thing that must be unique.
pub fn map_unique_violation(fault: DriverFault, alias: &McpServerAlias) -> (e: McpError)
    ensures
        if unique_violation(fault) {
            e matches McpError::AliasTaken(a) && a@ == alias@
        } else {
            e == McpError::Db(DbFault::Driver(fault.detail))
        },
{
    if let Some(code) = &fault.sqlstate {
        if text_equal(code.as_str(), UNIQUE_VIOLATION) {
            return McpError::AliasTaken(alias.as_str().to_owned());
        }
    }
    McpError::Db(DbFault::Driver(fault.detail))
}

/// Ends an insert or update of `record`: the record as it now stands, or what
/// the refusal of the statement means.
pub fn settle_write(record: McpServerRecord, refused: Option<DriverFault>) -> (r: Result<
    McpServerRecord,
    McpError,
>)
    ensures
        match (refused, r) {
            (None, Ok(rec)) => rec == record,
            (Some(fault), Err(e)) => if unique_violation(fault) {
                e matches McpError::AliasTaken(a) && a@ == record.alias@
            } else {
                e == McpError::Db(DbFault::Driver(fault.detail))
            },
            _ => false,
        },
{
    match refused {
        None => Ok(record),
        Some(fault) => Err(map_unique_violation(fault, &record.alias)),
    }
}

/// `current` with the change `payload` made at `now`.
pub open spec fn updated(
    current: McpServerRecord,
    payload: McpServerUpdate,
    now: Timestamp,
) -> McpServerRecord {
    McpServerRecord {
        alias: payload.alias.unwrap_or(current.alias),
        config: payload.config.unwrap_or(current.config),
        description: payload.description.unwrap_or(current.description),
        enabled: payload.enabled.unwrap_or(current.enabled),
        updated_at: now,
        ..current
    }
}

/// Makes the change `payload` to `current`.
pub fn apply_update(current: McpServerRecord, payload: McpServerUpdate, now: Timestamp) -> (r:
    McpServerRecord)
    ensures
        r == updated(current, payload, now),
{
    let mut current = current;
    if let Some(alias) = payload.alias {
        current.alias = alias;
    }
    if let Some(config) = payload.config {
        current.config = config;
    }
    if let Some(description) = payload.description {
        current.description = description;
    }
    if let Some(enabled) = payload.enabled {
        current.enabled = enabled;
    }
    current.updated_at = now;
    current
}

/// A row of the table of servers. The two columns that hold JSON come decoded,
/// or with the reason why they could not be.
#[derive(Debug)]
pub struct McpServerRow {
    pub id: McpServerId,
    pub org_id: OrgId,
    pub alias: String,
    pub enabled: bool,
    pub config: Result<McpTransportInput, String>,
    pub description: Option<String>,
    pub last_seen_at: Option<Timestamp>,
    pub last_error: Option<String>,
    pub discovered_tools: Result<Option<Vec<DiscoveredTool>>, String>,
    pub created_by_user_id: UserId,
    pub connection_status: ConnectionStatus,
    pub created_at: Timestamp,
    pub updated_at: Timestamp,
}

impl McpServerRow {
    /// Why the transport of the row cannot be read.
    pub open spec fn config_fault(self) -> Option<Seq<char>> {
        match self.config {
            Err(detail) => Some(detail@),
            Ok(raw) => match McpTransport::refusal(raw) {
                Some(e) => Some(e.text()),
                None => None,
            },
        }
    }

    /// What is wrong with the description of the row.
    pub open spec fn description_fault(self) -> Option<ParseError> {
        match self.description {
            Some(raw) => McpDescription::refusal(raw@),
            None => None,
        }
    }

    /// The row read as a record.
    pub open spec fn reads(self, rec: McpServerRecord) -> bool {
        &&& rec.id == self.id
        &&& rec.org_id == self.org_id
        &&& rec.alias@ == self.alias@
        &&& rec.enabled == self.enabled
        &&& self.config matches Ok(raw) && rec.config.url() == parsed_url(raw->url@)->Ok_0.2
        &&& match (self.description, rec.description) {
            (Some(raw), Some(d)) => d@ == raw@,
            (None, None) => true,
            _ => false,
        }
        &&& rec.last_seen_at == self.last_seen_at
        &&& rec.last_error == self.last_error
        &&& self.discovered_tools == Ok::<Option<Vec<DiscoveredTool>>, String>(rec.discovered_tools)
        &&& rec.created_by_user_id == self.created_by_user_id
        &&& rec.connection_status == self.connection_status
        &&& rec.created_at == self.created_at
        &&& rec.updated_at == self.updated_at
    }

    /// What reading the row comes to.
    pub open spec fn reading(self, r: Result<McpServerRecord, McpError>) -> bool {
        if McpServerAlias::refusal(self.alias@) is Some {
            r matches Err(McpError::Parse(e)) && McpServerAlias::refusal(self.alias@) == Some(e)
        } else if self.config_fault() is Some {
            r matches Err(McpError::Backend(s)) && s@ == "deserialize transport: "@
                + self.config_fault()->0
        } else if self.description_fault() is Some {
            r matches Err(McpError::Parse(e)) && self.description_fault() == Some(e)
        } else if self.discovered_tools is Err {
            r matches Err(McpError::Backend(s)) && s@ == "deserialize discovered: "@
                + self.discovered_tools->Err_0@
        } else {
            r matches Ok(rec) && self.reads(rec)
        }
    }

    /// The record that the row holds.
    pub fn into_record(self) -> (r: Result<McpServerRecord, McpError>)
        ensures
            self.reading(r),
    {
        let alias = match McpServerAlias::try_from(self.alias) {
            Ok(alias) => alias,
            Err(e) => {
                return Err(McpError::Parse(e));
            },
        };
        let config = match self.config {
            Err(detail) => {
                return Err(McpError::Backend(text2("deserialize transport: ", detail.as_str())));
            },
            Ok(raw) => match McpTransport::try_from(raw) {
                Ok(config) => config,
                Err(e) => {
                    return Err(
                        McpError::Backend(text2("deserialize transport: ", e.message().as_str())),
                    );
                },
            },
        };
        let description = match self.description {
            None => None,
            Some(raw) => match McpDescription::try_from(raw) {
                Ok(d) => Some(d),
                Err(e) => {
                    return Err(McpError::Parse(e));
                },
            },
        };
        let discovered_tools = match self.discovered_tools {
            Ok(tools) => tools,
            Err(detail) => {
                return Err(McpError::Backend(text2("deserialize discovered: ", detail.as_str())));
            },
        };
        Ok(
            McpServerRecord {
                id: self.id,
                org_id: self.org_id,
                alias,
                enabled: self.enabled,
                config,
                description,
                last_seen_at: self.last_seen_at,
                last_error: self.last_error,
                discovered_tools,
                created_by_user_id: self.created_by_user_id,
                connection_status: self.connection_status,
                created_at: self.created_at,
                updated_at: self.updated_at,
            },
        )
    }
}

/// The record of the server `id`, given the row that was found for it.
pub fn read_server(id: McpServerId, row: Option<McpServerRow>) -> (r: Result<
    McpServerRecord,
    McpError,
>)
    ensures
        match row {
            None => r == Err::<McpServerRecord, McpError>(McpError::NotFound(id)),
            Some(row) => row.reading(r),
        },
{
    match row {
        None => Err(McpError::NotFound(id)),
        Some(row) => row.into_record(),
    }
}

/// Decides on a change to the server `id`, given the row that was found for it:
/// the record to write back.
pub fn plan_update(
    id: McpServerId,
    row: Option<McpServerRow>,
    payload: McpServerUpdate,
    now: Timestamp,
) -> (r: Result<McpServerRecord, McpError>)
    ensures
        match row {
            None => r == Err::<McpServerRecord, McpError>(McpError::NotFound(id)),
            Some(row) => match r {
                Ok(rec) => exists|current: McpServerRecord|
                    row.reading(Ok(current)) && rec == #[trigger] updated(current, payload, now),
                Err(e) => row.reading(Err(e)),
            },
        },
{
    match read_server(id, row) {
        Ok(current) => Ok(apply_update(current, payload, now)),
        Err(e) => Err(e),
    }
}

/// The records of rows that were read, in their order. The first row that
/// cannot be read fails the whole list.
pub fn decode_rows(rows: Vec<McpServerRow>) -> (r: Result<Vec<McpServerRecord>, McpError>)
    ensures
        match r {
            Ok(recs) => {
                &&& recs@.len() == rows@.len()
                &&& forall|i: int| 0 <= i < rows@.len() ==> (#[trigger] rows@[i]).reading(Ok(recs@[i]))
            },
            Err(e) => exists|i: int|
                {
                    &&& 0 <= i < rows@.len()
                    &&& (#[trigger] rows@[i]).reading(Err(e))
                    &&& forall|j: int| 0 <= j < i ==> readable(#[trigger] rows@[j])
                },
        },
{
    let ghost all = rows@;
    let mut rest = rows;
    let mut out: Vec<McpServerRecord> = Vec::new();
    while rest.len() > 0
        invariant
            all == rows@,
            out@.len() + rest@.len() == all.len(),
            rest@ == all.subrange(out@.len() as int, all.len() as int),
            forall|i: int| 0 <= i < out@.len() ==> (#[trigger] all[i]).reading(Ok(out@[i])),
        decreases rest@.len(),
    {
        let row = rest.remove(0);
        let ghost at = out@.len() as int;
        assert(row == all[at]);
        assert(rest@ =~= all.subrange(at + 1, all.len() as int));
        match row.into_record() {
            Ok(rec) => {
                out.push(rec);
            },
            Err(e) => {
                proof {
                    assert forall|j: int| 0 <= j < at implies readable(#[trigger] all[j]) by {
                        assert(all[j].reading(Ok(out@[j])));
                    }
                    assert(all[at].reading(Err(e)));
                }
                return Err(e);
            },
        }
    }
    Ok(out)
}

/// Whether a row reads as some record.
pub open spec fn readable(row: McpServerRow) -> bool {
    &&& McpServerAlias::refusal(row.alias@) is None
    &&& row.config_fault() is None
    &&& row.description_fault() is None
    &&& row.discovered_tools is Ok
}

/// Ends a statement that addresses the server `id` alone: it must have touched
/// a row.
pub fn settle_touch(id: McpServerId, rows_affected: u64) -> (r: Result<(), McpError>)
    ensures
        r == if rows_affected == 0 {
            Err::<(), McpError>(McpError::NotFound(id))
        } else {
            Ok(())
        },
{
    if rows_affected == 0 {
        return Err(McpError::NotFound(id));
    }
    Ok(())
}

/// `current` after the refresh that found out `health`.
pub open spec fn with_health(
    current: McpServerRecord,
    health: McpHealthUpdate,
    now: Timestamp,
) -> McpServerRecord {
    McpServerRecord {
        last_seen_at: health.last_seen_at,
        last_error: health.last_error,
        discovered_tools: health.discovered_tools,
        updated_at: now,
        ..current
    }
}

/// Writes down what a refresh found out, as it is.
pub fn apply_health(current: McpServerRecord, health: McpHealthUpdate, now: Timestamp) -> (r:
    McpServerRecord)
    ensures
        r == with_health(current, health, now),
{
    let mut current = current;
    current.last_seen_at = health.last_seen_at;
    current.last_error = health.last_error;
    current.discovered_tools = health.discovered_tools;
    current.updated_at = now;
    current
}

/// A change that names nothing touches the time of the last change alone.
pub proof fn law_empty_update_changes_nothing(
    current: McpServerRecord,
    payload: McpServerUpdate,
    now: Timestamp,
)
    requires
        payload.alias is None,
        payload.config is None,
        payload.description is None,
        payload.enabled is None,
    ensures
        updated(current, payload, now) == (McpServerRecord { updated_at: now, ..current }),
{
}

/// No change moves a server: not to another organisation, creator or identifier,
/// and not in what its refreshes found out.
pub proof fn law_update_keeps_identity(
    current: McpServerRecord,
    payload: McpServerUpdate,
    now: Timestamp,
)
    ensures
        ({
            let rec = updated(current, payload, now);
            &&& rec.id == current.id
            &&& rec.org_id == current.org_id
            &&& rec.created_by_user_id == current.created_by_user_id
            &&& rec.created_at == current.created_at
            &&& rec.last_seen_at == current.last_seen_at
            &&& rec.last_error == current.last_error
            &&& rec.discovered_tools == current.discovered_tools
            &&& rec.connection_status == current.connection_status
        }),
{
}

/// A change takes what it names and leaves the rest: an alias, a transport, a description or
/// a switch that is given is the server's afterwards, and one that is not given stays.
pub proof fn law_update_takes_what_it_names(
    current: McpServerRecord,
    payload: McpServerUpdate,
    now: Timestamp,
)
    ensures
        ({
            let rec = updated(current, payload, now);
            &&& payload.alias matches Some(alias) ==> rec.alias == alias
            &&& payload.alias is None ==> rec.alias == current.alias
            &&& payload.config matches Some(config) ==> rec.config == config
            &&& payload.config is None ==> rec.config == current.config
            &&& payload.description matches Some(description) ==> rec.description == description
            &&& payload.description is None ==> rec.description == current.description
            &&& payload.enabled matches Some(enabled) ==> rec.enabled == enabled
            &&& payload.enabled is None ==> rec.enabled == current.enabled
            &&& rec.updated_at == now
        }),
{
}

/// Of two changes the later one prevails where both name a thing.
pub proof fn law_later_update_prevails(
    current: McpServerRecord,
    first: McpServerUpdate,
    second: McpServerUpdate,
    then: Timestamp,
    now: Timestamp,
)
    ensures
        ({
            let rec = updated(updated(current, first, then), second, now);
            &&& second.alias matches Some(alias) ==> rec.alias == alias
            &&& second.alias is None && first.alias is Some ==> rec.alias == first.alias->0
            &&& second.enabled matches Some(enabled) ==> rec.enabled == enabled
            &&& second.enabled is None && first.enabled is Some ==> rec.enabled
                == first.enabled->0
            &&& rec.updated_at == now
        }),
{
}

/// A registered server is what was asked for, under its new identifier, with nothing found
/// out about it yet.
pub proof fn law_created_server_is_as_asked(
    payload: McpServerCreate,
    id: McpServerId,
    now: Timestamp,
)
    ensures
        ({
            let rec = created(payload, id, now);
            &&& rec.id == id
            &&& rec.org_id == payload.org_id && rec.created_by_user_id
                == payload.created_by_user_id
            &&& rec.alias == payload.alias && rec.config == payload.config
            &&& rec.description == payload.description && rec.enabled == payload.enabled
            &&& rec.last_seen_at is None && rec.last_error is None
            &&& rec.discovered_tools is None
            &&& rec.connection_status == ConnectionStatus::Healthy
            &&& rec.created_at == now && rec.updated_at == now
        }),
{
}

/// A refresh leaves what it found out and nothing else: what the server is called, where it
/// is and whether it is switched on stay.
pub proof fn law_health_is_written_as_found(
    current: McpServerRecord,
    health: McpHealthUpdate,
    now: Timestamp,
)
    ensures
        ({
            let rec = with_health(current, health, now);
            &&& rec.last_seen_at == health.last_seen_at
            &&& rec.last_error == health.last_error
            &&& rec.discovered_tools == health.discovered_tools
            &&& rec.updated_at == now
            &&& rec.id == current.id && rec.org_id == current.org_id
            &&& rec.alias == current.alias && rec.enabled == current.enabled
            &&& rec.config == current.config && rec.description == current.description
            &&& rec.created_by_user_id == current.created_by_user_id
            &&& rec.connection_status == current.connection_status
            &&& rec.created_at == current.created_at
        }),
{
}

/// A row is read whole or not at all: it reads as a record exactly if its alias, its
/// transport, its description and its tools can all be read, and the record then has what the
/// row has.
pub proof fn law_row_is_read_whole(row: McpServerRow, r: Result<McpServerRecord, McpError>)
    requires
        row.reading(r),
    ensures
        r is Ok <==> McpServerAlias::refusal(row.alias@) is None && (row.config matches Ok(raw)
            && McpTransport::refusal(raw) is None) && (row.description matches Some(d)
            ==> McpDescription::refusal(d@) is None) && row.discovered_tools is Ok,
        r matches Ok(rec) ==> {
            &&& rec.id == row.id && rec.org_id == row.org_id
            &&& rec.alias@ == row.alias@ && rec.enabled == row.enabled
            &&& row.description matches Some(d) ==> rec.description is Some
                && rec.description->0@ == d@
            &&& row.description is None ==> rec.description is None
            &&& rec.discovered_tools == row.discovered_tools->Ok_0
            &&& rec.last_seen_at == row.last_seen_at && rec.last_error == row.last_error
            &&& rec.created_by_user_id == row.created_by_user_id
            &&& rec.connection_status == row.connection_status
            &&& rec.created_at == row.created_at && rec.updated_at == row.updated_at
        },
{
}

} // verus!
