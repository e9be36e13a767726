//! The collaborator-facing data types and interfaces: keyed messages, the
//! storage collaborator trait with its repository and the LOAD/EXTRACT
//! orchestration, and the messaging hook with its verified publisher.

use vstd::prelude::*;
use crate::Error;
use crate::batch::TypedBatch;
use crate::extract::{all_rows_messages, msgs_match, rows_into_messages, rows_ok, RowValue};
use crate::schema::{source_lookup, Schema};
use crate::sql::{
    create_namespace_stmt, create_table_stmt, drop_table_stmt, generate_ddl, generate_dml,
    has_boolean_col, insert_stmt, is_fqn, namespace_segment,
};

verus! {

/// One keyed message bound for the configured destination topic.
#[derive(Debug, Clone, PartialEq, Eq)]
pub struct Message {
    pub key: String,
    /// The serialized structured payload.
    pub value: String,
}

/// The storage collaborator: executes statements and runs read queries.
/// Implementations (relational drivers) live outside the library and are
/// injected; the library never branches on backend identity.
pub trait Database {
    /// Runs one DDL/DML statement; `Statement` errors come from the store.
    fn execute(&mut self, stmt: &String) -> Result<(), Error>;

    /// Runs one read query; each row holds the raw column values, with
    /// runtime type tags, in column order. `Query` errors come from the
    /// store.
    fn query(&mut self, sql: &String) -> Result<Vec<Vec<RowValue>>, Error>;
}

/// The full statement sequence of one load, in the mandatory order:
/// create-namespace, drop-table, create-table, and the bulk insert when the
/// batch has rows (a batch with no rows issues the DDL alone).
/// `UnsupportedType` exactly when an insert would be needed but a column is
/// boolean.
pub fn load_statements(fqn: &String, b: &TypedBatch) -> (r: Result<Vec<String>, Error>)
    requires
        is_fqn(fqn@),
        b.wf(),
    ensures
        r is Err <==> b.rows@.len() > 0 && has_boolean_col(b.cols@),
        r matches Err(e) ==> e matches Error::UnsupportedType(_),
        r matches Ok(v) ==> v@.len() == (if b.rows@.len() == 0 {
            3int
        } else {
            4int
        }),
        r matches Ok(v) ==> v@[0]@ == create_namespace_stmt(namespace_segment(fqn@)) && v@[1]@
            == drop_table_stmt(fqn@) && v@[2]@ == create_table_stmt(fqn@, b.cols@),
        r matches Ok(v) ==> b.rows@.len() > 0 ==> v@[3]@ == insert_stmt(fqn@, *b),
{
    let dml: Option<String> = match generate_dml(fqn, b) {
        Ok(o) => o,
        Err(e) => {
            return Err(e);
        },
    };
    let mut stmts: Vec<String> = generate_ddl(fqn, b);
    match dml {
        Some(s) => {
            stmts.push(s);
        },
        None => {},
    }
    Ok(stmts)
}

/// The storage handle one command owns for its duration.
pub struct Repository<D: Database> {
    pub database: D,
}

impl<D: Database> Repository<D> {
    /// LOAD: executes the generated statement sequence in order against
    /// the store, stopping at the first failure. Generation errors abort
    /// before any statement is issued; there is no rollback, so a failing
    /// insert after the DDL leaves an empty but correctly-shaped table.
    pub fn load(&mut self, fqn: &String, batch: &TypedBatch) -> (r: Result<(), Error>)
        requires
            is_fqn(fqn@),
            batch.wf(),
        ensures
            batch.rows@.len() > 0 && has_boolean_col(batch.cols@) ==> r is Err,
            r is Ok ==> !(batch.rows@.len() > 0 && has_boolean_col(batch.cols@)),
    {
        let stmts: Vec<String> = match load_statements(fqn, batch) {
            Ok(v) => v,
            Err(e) => {
                return Err(e);
            },
        };
        let mut i: usize = 0;
        while i < stmts.len()
            decreases stmts@.len() - i,
        {
            match self.database.execute(&stmts[i]) {
                Ok(_) => {},
                Err(e) => {
                    return Err(e);
                },
            }
            i += 1;
        }
        Ok(())
    }

    /// EXTRACT: runs the schema's `sql` source query and classifies every
    /// result row into entity and relationship messages, in row order.
    /// A schema without an `sql` locator fails with `MissingSource` before
    /// any query is issued.
    pub fn to_messages(&mut self, schema: &Schema) -> (r: Result<Vec<Message>, Error>)
        ensures
            r matches Ok(ms) ==> exists|rows: Seq<Vec<RowValue>>|
                rows_ok(*schema, rows) && msgs_match(ms@, all_rows_messages(*schema, rows)),
            source_lookup(schema.source@, "sql"@) is None ==> (r matches Err(e) && e
                matches Error::MissingSource(_)),
    {
        let locator: String = match schema.get_sql_source() {
            Ok(s) => s,
            Err(e) => {
                return Err(e);
            },
        };
        let rows: Vec<Vec<RowValue>> = match self.database.query(&locator) {
            Ok(r) => r,
            Err(e) => {
                return Err(e);
            },
        };
        let r = rows_into_messages(&rows, schema);
        proof {
            if r is Ok {
                assert(rows_ok(*schema, rows@) && msgs_match(
                    r->Ok_0@,
                    all_rows_messages(*schema, rows@),
                ));
            }
        }
        r
    }
}

/// The messaging collaborator: delivers one keyed message to a topic,
/// blocking until acknowledgment or the fixed delivery timeout, and
/// reports acknowledgment. Implementations live outside the library and
/// are injected.
pub trait Hook {
    fn _send(&self, topic: &str, msg: &Message) -> bool;
}

/// Whether every delivery outcome is a success.
pub open spec fn all_ok(v: Seq<bool>) -> bool {
    forall|i: int| 0 <= i < v.len() ==> v[i]
}

/// Whether every element is true, executable.
pub fn all_true(v: &Vec<bool>) -> (r: bool)
    ensures
        r == all_ok(v@),
{
    let mut i: usize = 0;
    while i < v.len()
        invariant
            i <= v@.len(),
            forall|j: int| 0 <= j < i ==> v@[j],
        decreases v@.len() - i,
    {
        if !v[i] {
            return false;
        }
        i += 1;
    }
    true
}

/// The publisher: owns the configured destination topic and the
/// attempt-all delivery pass over an injected hook.
pub struct Webhook<H: Hook> {
    pub hook: H,
    pub topic: Option<String>,
}

impl<H: Hook> Webhook<H> {
    /// A publisher around `hook` with no topic configured yet.
    pub fn new(hook: H) -> (r: Webhook<H>)
        ensures
            r.topic is None,
    {
        Webhook { hook, topic: None }
    }

    /// Configures the destination topic; must be called before `send`.
    pub fn set_topic(&mut self, topic: String)
        ensures
            final(self).topic == Some(topic),
            final(self).hook == old(self).hook,
    {
        self.topic = Some(topic);
    }

    /// The configured destination topic, if any.
    pub fn get_topic(&self) -> (r: Option<String>)
        ensures
            r == self.topic,
    {
        match &self.topic {
            Some(t) => Some(t.clone()),
            None => None,
        }
    }

    /// Delivers every message to the configured topic, sequentially and in
    /// order. Every message is attempted regardless of earlier failures —
    /// no short-circuit — and the aggregate is true only if every delivery
    /// was acknowledged (with no messages, no delivery is attempted and the
    /// aggregate is vacuously true). `NotConfigured` exactly when no topic
    /// was set.
    pub fn send(&self, msgs: &Vec<Message>) -> (r: Result<bool, Error>)
        ensures
            r is Err <==> self.topic is None,
            r matches Err(e) ==> e == Error::NotConfigured,
            self.topic is Some && msgs@.len() == 0 ==> r == Ok::<bool, Error>(true),
    {
        let topic: &String = match &self.topic {
            Some(t) => t,
            None => {
                return Err(Error::NotConfigured);
            },
        };
        let mut oks: Vec<bool> = Vec::new();
        let mut i: usize = 0;
        while i < msgs.len()
            invariant
                i <= msgs@.len(),
                oks@.len() == i,
            decreases msgs@.len() - i,
        {
            let ok: bool = self.hook._send(topic.as_str(), &msgs[i]);
            oks.push(ok);
            i += 1;
        }
        Ok(all_true(&oks))
    }
}

} // verus!
