//! The YCSB service: tables of records, each record a set of named fields.

use crate::table::{map_of, Table};
use vstd::prelude::*;

verus! {

/// An update from a YCSB client: the fields `values` of record `key` in
/// `table`.
pub struct Update {
    pub table: String,
    pub key: String,
    pub values: Table<String, Vec<u8>>,
}

/// The abstract database: table name to (record key to (field to bytes)).
pub type YcsbView = Map<Seq<char>, Map<Seq<char>, Map<Seq<char>, Seq<u8>>>>;

pub open spec fn fields_view(t: Table<String, Vec<u8>>) -> Map<Seq<char>, Seq<u8>> {
    t.view().map_values(|v: Vec<u8>| v@)
}

impl Update {
    /// The update read off a message: its table, its record key and its
    /// fields in message order, a later field of the same name replacing an
    /// earlier one.
    pub fn decode(table: String, key: String, fields: Vec<(String, Vec<u8>)>) -> (u: Update)
        ensures
            u.table == table,
            u.key == key,
            u.values.wf(),
            fields_view(u.values) == map_of(
                fields@.map_values(|e: (String, Vec<u8>)| (e.0@, e.1@)),
            ),
    {
        let mut values: Table<String, Vec<u8>> = Table::new();
        let ghost src = fields@.map_values(|e: (String, Vec<u8>)| (e.0@, e.1@));
        let ghost all = fields@;
        let mut i: usize = 0;
        while i < fields.len()
            invariant
                i <= fields@.len(),
                fields@ == all,
                src == all.map_values(|e: (String, Vec<u8>)| (e.0@, e.1@)),
                values.wf(),
                fields_view(values) == map_of(src.subrange(0, i as int)),
            decreases fields@.len() - i,
        {
            let name = fields[i].0.clone();
            let bytes = fields[i].1.clone();
            assert(src.subrange(0, i + 1).drop_last() =~= src.subrange(0, i as int));
            assert(src[i as int] == (name@, bytes@));
            values.insert(name, bytes);
            assert(fields_view(values) =~= map_of(src.subrange(0, i + 1)));
            i = i + 1;
        }
        assert(src.subrange(0, i as int) =~= src);
        Update { table, key, values }
    }
}

pub struct YcsbDataState {
    tables: Table<String, Table<String, Table<String, Vec<u8>>>>,
}

impl YcsbDataState {
    pub closed spec fn wf(&self) -> bool {
        &&& self.tables.wf()
        &&& forall|t: Seq<char>| #[trigger]
            self.tables.view().contains_key(t) ==> self.tables.view()[t].wf()
    }

    pub closed spec fn view(&self) -> YcsbView {
        self.tables.view().map_values(
            |db: Table<String, Table<String, Vec<u8>>>| db.view().map_values(|rec: Table<String, Vec<u8>>| fields_view(rec)),
        )
    }

    /// The fields stored for `key` in `table`, if any.
    pub fn get(&self, table: &String, key: &String) -> (r: Option<&Table<String, Vec<u8>>>)
        requires
            self.wf(),
        ensures
            match r {
                Some(rec) => self.view().contains_key(table@) && self.view()[table@].contains_key(key@)
                    && fields_view(*rec) == self.view()[table@][key@],
                None => !(self.view().contains_key(table@) && self.view()[table@].contains_key(key@)),
            },
    {
        match self.tables.get(table) {
            Some(db) => db.get(key),
            None => None,
        }
    }
}

/// The database after storing `values` as record `key` of `table`; the
/// table is created when missing, and an existing record is replaced whole.
pub open spec fn spec_store(s: YcsbView, table: Seq<char>, key: Seq<char>, values: Map<Seq<char>, Seq<u8>>) -> YcsbView {
    let db = if s.contains_key(table) {
        s[table]
    } else {
        Map::empty()
    };
    s.insert(table, db.insert(key, values))
}

pub struct YcsbService;

impl YcsbService {
    pub fn initial_state(&mut self) -> (s: YcsbDataState)
        ensures
            s.wf(),
            s.view() == YcsbView::empty(),
    {
        let s = YcsbDataState { tables: Table::new() };
        assert(s.view() =~= YcsbView::empty());
        s
    }

    /// Stores the update's record, answering with status 0.
    pub fn update(&mut self, tables: &mut YcsbDataState, update: Update) -> (status: u32)
        requires
            old(tables).wf(),
        ensures
            final(tables).wf(),
            final(tables).view() == spec_store(old(tables).view(), update.table@, update.key@, fields_view(update.values)),
            status == 0,
    {
        let ghost old_view = tables.view();
        let Update { table, key, values } = update;
        let ghost values_view = fields_view(values);
        let mut db = match tables.tables.remove(&table) {
            Some(t) => t,
            None => Table::new(),
        };
        let ghost key_view = key@;
        db.insert(key, values);
        let ghost new_db = db;
        let ghost table_view = table@;
        tables.tables.insert(table, db);
        proof {
            assert forall|t: Seq<char>| #[trigger] tables.tables.view().contains_key(t) implies tables.tables.view()[t].wf() by {
                if t != table_view {
                    assert(old(tables).tables.view().contains_key(t));
                }
            }
            let odb = if old_view.contains_key(table_view) { old_view[table_view] } else { Map::empty() };
            assert(new_db.view().map_values(|rec: Table<String, Vec<u8>>| fields_view(rec)) =~= odb.insert(key_view, values_view));
            assert(tables.view() =~= spec_store(old_view, table_view, key_view, values_view));
        }
        0
    }
}

/// After an update, reading its record gives back its fields, and every
/// other record is unchanged.
pub proof fn lemma_update_then_read(
    s: YcsbView,
    table: Seq<char>,
    key: Seq<char>,
    values: Map<Seq<char>, Seq<u8>>,
    table2: Seq<char>,
    key2: Seq<char>,
)
    ensures
        spec_store(s, table, key, values)[table][key] == values,
        (table != table2 || key != key2) ==> ((spec_store(s, table, key, values).contains_key(table2)
            && spec_store(s, table, key, values)[table2].contains_key(key2)) <==> (s.contains_key(table2)
            && s[table2].contains_key(key2))),
        (table != table2 || key != key2) && s.contains_key(table2) && s[table2].contains_key(key2)
            ==> spec_store(s, table, key, values)[table2][key2] == s[table2][key2],
{
}

} // verus!
