//! Spacecraft metadata database, built on the `spacecrafts` crate's database.
use vstd::prelude::*;
use std::collections::HashSet;
use spacecrafts::{Spacecraft, DB};
use crate::framing::frame::Scid;

verus! {

broadcast use vstd::std_specs::hash::group_hash_axioms;

#[verifier::external_type_specification]
#[verifier::external_body]
pub struct ExDB(spacecrafts::DB);

#[verifier::external_type_specification]
#[verifier::external_body]
pub struct ExSpacecraft(spacecrafts::Spacecraft);

/// The spacecrafts a database holds, in order: the identifier, name and catalog
/// number of each.
pub uninterp spec fn db_records(db: DB) -> Seq<(u16, Seq<char>, u32)>;

/// What `serde_json` parses `bytes` into as a spacecraft database: the records of
/// the database, or `None` where the bytes are not one.
pub uninterp spec fn json_db_records(bytes: Seq<u8>) -> Option<Seq<(u16, Seq<char>, u32)>>;

/// The identifiers of the spacecrafts a database holds, in order.
pub open spec fn db_scids(db: DB) -> Seq<u16> {
    scids_of(db_records(db))
}

/// The identifiers of records, in order.
pub open spec fn scids_of(recs: Seq<(u16, Seq<char>, u32)>) -> Seq<u16> {
    recs.map_values(|r: (u16, Seq<char>, u32)| r.0)
}

/// Index of the first record with identifier `scid`, or -1 if there is none.
pub open spec fn first_index(recs: Seq<(u16, Seq<char>, u32)>, scid: u16) -> int
    decreases recs.len(),
{
    if recs.len() == 0 {
        -1
    } else if recs[0].0 == scid {
        0
    } else {
        let k = first_index(recs.drop_first(), scid);
        if k < 0 {
            -1
        } else {
            k + 1
        }
    }
}

/// [first_index] finds the first record with the identifier, and finds one exactly
/// when the identifiers hold it.
pub proof fn lemma_first_index(recs: Seq<(u16, Seq<char>, u32)>, scid: u16)
    ensures
        -1 <= first_index(recs, scid) < recs.len(),
        first_index(recs, scid) >= 0 <==> scids_of(recs).contains(scid),
        first_index(recs, scid) >= 0 ==> recs[first_index(recs, scid)].0 == scid,
        forall|j: int| 0 <= j < first_index(recs, scid) ==> (#[trigger] recs[j]).0 != scid,
        first_index(recs, scid) < 0 ==> forall|j: int| 0 <= j < recs.len() ==> (#[trigger] recs[j]).0 != scid,
    decreases recs.len(),
{
    if recs.len() > 0 {
        let rest = recs.drop_first();
        lemma_first_index(rest, scid);
        assert forall|j: int| 0 <= j < rest.len() implies rest[j] == recs[j + 1] by {}
        if recs[0].0 == scid {
            assert(scids_of(recs)[0] == scid);
        } else {
            assert(scids_of(recs).contains(scid) == scids_of(rest).contains(scid)) by {
                if scids_of(recs).contains(scid) {
                    let k = choose|k: int| 0 <= k < scids_of(recs).len() && scids_of(recs)[k] == scid;
                    assert(k > 0);
                    assert(scids_of(rest)[k - 1] == scid);
                }
                if scids_of(rest).contains(scid) {
                    let k = choose|k: int| 0 <= k < scids_of(rest).len() && scids_of(rest)[k] == scid;
                    assert(scids_of(recs)[k + 1] == scid);
                }
            }
            assert forall|j: int| 0 <= j < first_index(recs, scid) implies (#[trigger] recs[j]).0 != scid by {
                if j > 0 {
                    assert(recs[j] == rest[j - 1]);
                }
            }
            assert forall|j: int| first_index(recs, scid) < 0 && 0 <= j < recs.len() implies (
            #[trigger] recs[j]).0 != scid by {
                if j > 0 {
                    assert(recs[j] == rest[j - 1]);
                }
            }
        }
    }
}

/// A spacecraft of the database: its identifier, name and catalog number as plain
/// values, and the whole database entry.
#[derive(Debug)]
pub struct SpacecraftRecord {
    pub scid: Scid,
    pub name: String,
    pub catalog_number: u32,
    pub spacecraft: Spacecraft,
}

/// The identifier, name and catalog number of a record.
pub open spec fn record_view(r: SpacecraftRecord) -> (u16, Seq<char>, u32) {
    (r.scid, r.name@, r.catalog_number)
}

/// Calls `serde_json::from_slice` to parse a spacecraft database.
#[verifier::external_body]
fn db_from_json(bytes: &[u8]) -> (r: Option<DB>)
    ensures
        r is Some <==> json_db_records(bytes@) is Some,
        r matches Some(db) ==> json_db_records(bytes@) == Some(db_records(db)),
{
    serde_json::from_slice(bytes).ok()
}

/// Calls `spacecrafts::DB::find`, which returns a copy of the first spacecraft with
/// the identifier, or `None` if the database holds none; the copy is handed out as a
/// record.
#[verifier::external_body]
fn db_find(db: &DB, scid: u16) -> (r: Option<SpacecraftRecord>)
    ensures
        r is Some <==> db_scids(*db).contains(scid),
        r matches Some(rec) ==> record_view(rec) == db_records(*db)[first_index(db_records(*db), scid)],
{
    match db.find(scid) {
        Some(sc) => Some(
            SpacecraftRecord { scid: sc.scid, name: sc.name.clone(), catalog_number: sc.catalog_number, spacecraft: sc },
        ),
        None => None,
    }
}

/// Copies the spacecrafts of a database with their `Clone`, one record for each, in
/// order.
#[verifier::external_body]
fn db_all(db: &DB) -> (r: Vec<SpacecraftRecord>)
    ensures
        r@.len() == db_records(*db).len(),
        forall|i: int| 0 <= i < r@.len() ==> record_view(#[trigger] r@[i]) == db_records(*db)[i],
{
    db.spacecrafts.iter().map(|sc| SpacecraftRecord {
        scid: sc.scid,
        name: sc.name.clone(),
        catalog_number: sc.catalog_number,
        spacecraft: sc.clone(),
    }).collect()
}

/// Number of spacecrafts in a database.
#[verifier::external_body]
fn db_len(db: &DB) -> (n: usize)
    ensures
        n == db_records(*db).len(),
{
    db.spacecrafts.len()
}

/// The identifier of spacecraft `i` of a database.
#[verifier::external_body]
fn db_scid_at(db: &DB, i: usize) -> (scid: u16)
    requires
        i < db_records(*db).len(),
    ensures
        scid == db_records(*db)[i as int].0,
{
    db.spacecrafts[i].scid
}

/// Appends a copy, made with its `Clone`, of spacecraft `i` of `src` to `dst`.
#[verifier::external_body]
fn db_push_from(dst: &mut DB, src: &DB, i: usize)
    requires
        i < db_records(*src).len(),
    ensures
        db_records(*final(dst)) == db_records(*old(dst)).push(db_records(*src)[i as int]),
{
    dst.spacecrafts.push(src.spacecrafts[i].clone())
}

/// Spacecraft metadata database.
pub struct Spacecrafts {
    db: DB,
}

/// Why a spacecraft database could not be read.
#[derive(Debug, Clone, Copy, PartialEq, Eq, Structural)]
pub enum SpacecraftsError {
    /// The database file is not a spacecraft database.
    InvalidFile,
    /// The built-in database is not a spacecraft database.
    InvalidBuiltin,
}

/// The identifiers of `builtin` that `file` does not hold, in order.
pub open spec fn added(file: Seq<u16>, builtin: Seq<u16>) -> Seq<u16>
    decreases builtin.len(),
{
    if builtin.len() == 0 {
        seq![]
    } else {
        let rest = added(file, builtin.drop_last());
        if file.contains(builtin.last()) {
            rest
        } else {
            rest.push(builtin.last())
        }
    }
}

/// The records of `builtin` whose identifiers `file` does not hold, in order.
pub open spec fn added_records(file: Seq<u16>, builtin: Seq<(u16, Seq<char>, u32)>) -> Seq<
    (u16, Seq<char>, u32),
>
    decreases builtin.len(),
{
    if builtin.len() == 0 {
        seq![]
    } else {
        let rest = added_records(file, builtin.drop_last());
        if file.contains(builtin.last().0) {
            rest
        } else {
            rest.push(builtin.last())
        }
    }
}

/// The identifiers of the added records are the added identifiers.
pub proof fn lemma_added_scids(file: Seq<u16>, builtin: Seq<(u16, Seq<char>, u32)>)
    ensures
        scids_of(added_records(file, builtin)) == added(file, scids_of(builtin)),
    decreases builtin.len(),
{
    if builtin.len() > 0 {
        lemma_added_scids(file, builtin.drop_last());
        assert(scids_of(builtin).drop_last() =~= scids_of(builtin.drop_last()));
        let rest = added_records(file, builtin.drop_last());
        assert(scids_of(rest.push(builtin.last())) =~= scids_of(rest).push(builtin.last().0));
    } else {
        assert(scids_of(builtin) =~= Seq::<u16>::empty());
        assert(scids_of(Seq::<(u16, Seq<char>, u32)>::empty()) =~= Seq::<u16>::empty());
    }
}

impl Spacecrafts {
    /// The spacecrafts, in order: identifier, name and catalog number of each.
    pub closed spec fn records(&self) -> Seq<(u16, Seq<char>, u32)> {
        db_records(self.db)
    }

    /// The identifiers of the spacecrafts, in order.
    pub open spec fn scids(&self) -> Seq<u16> {
        scids_of(self.records())
    }

    /// The spacecrafts of `db`.
    pub fn from_db(db: DB) -> (s: Self)
        ensures
            s.records() == db_records(db),
    {
        Spacecrafts { db }
    }

    /// The spacecrafts of `db` followed by those of `builtin` whose identifiers `db`
    /// does not hold.
    pub fn with_builtin(db: DB, builtin: &DB) -> (s: Self)
        ensures
            s.records() == db_records(db) + added_records(db_scids(db), db_records(*builtin)),
            s.scids() == db_scids(db) + added(db_scids(db), db_scids(*builtin)),
    {
        let mut db = db;
        let ghost file_recs = db_records(db);
        let ghost file = db_scids(db);
        let mut file_ids: HashSet<Scid> = HashSet::new();
        let n = db_len(&db);
        let mut i: usize = 0;
        while i < n
            invariant
                n == file.len(),
                file == db_scids(db),
                file_recs == db_records(db),
                i <= n,
                file_ids@ == file.subrange(0, i as int).to_set(),
            decreases n - i,
        {
            let scid = db_scid_at(&db, i);
            file_ids.insert(scid);
            proof {
                assert(file[i as int] == scid);
                assert(file.subrange(0, i as int + 1) =~= file.subrange(0, i as int) + seq![scid]);
                Seq::lemma_to_set_insert_commutes(file.subrange(0, i as int), scid);
            }
            i = i + 1;
        }
        proof {
            assert(file.subrange(0, n as int) =~= file);
            assert forall|s: u16| file_ids@.contains(s) <==> file.contains(s) by {
                assert(file.to_set().contains(s) == file.contains(s));
            }
            assert(file_recs + added_records(file, db_records(*builtin).subrange(0, 0)) =~= file_recs);
        }
        let ghost bs = db_records(*builtin);
        let m = db_len(builtin);
        let mut j: usize = 0;
        while j < m
            invariant
                m == bs.len(),
                bs == db_records(*builtin),
                j <= m,
                forall|s: u16| file_ids@.contains(s) <==> file.contains(s),
                file == scids_of(file_recs),
                db_records(db) == file_recs + added_records(file, bs.subrange(0, j as int)),
            decreases m - j,
        {
            let scid = db_scid_at(builtin, j);
            proof {
                let prev = bs.subrange(0, j as int);
                let next = bs.subrange(0, j as int + 1);
                assert(next.drop_last() =~= prev);
                assert(next.last() == bs[j as int]);
                assert(added_records(file, next) == if !file.contains(scid) {
                    added_records(file, prev).push(bs[j as int])
                } else {
                    added_records(file, prev)
                });
            }
            // skip any that already exist from the file
            if !file_ids.contains(&scid) {
                db_push_from(&mut db, builtin, j);
                proof {
                    assert(db_records(db) =~= file_recs + added_records(file, bs.subrange(0, j as int + 1)));
                }
            } else {
                proof {
                    assert(file.contains(scid));
                }
            }
            j = j + 1;
        }
        proof {
            assert(bs.subrange(0, m as int) =~= bs);
            lemma_added_scids(file, bs);
            assert(scids_of(file_recs + added_records(file, bs)) =~= file + scids_of(added_records(file, bs)));
        }
        Spacecrafts { db }
    }

    /// The spacecrafts of the database that `file` holds, followed, where a built-in
    /// database is given, by those of the built-in database whose identifiers the
    /// file does not hold.
    ///
    /// # Errors
    /// [SpacecraftsError::InvalidFile] if `file` is not a spacecraft database, else
    /// [SpacecraftsError::InvalidBuiltin] if `builtin` is given and is not one.
    pub fn with_file_bytes(file: &[u8], builtin: Option<&[u8]>) -> (r: Result<Spacecrafts, SpacecraftsError>)
        ensures
            json_db_records(file@) is None ==> r == Err::<Spacecrafts, SpacecraftsError>(
                SpacecraftsError::InvalidFile,
            ),
            json_db_records(file@) is Some && (builtin matches Some(b) && json_db_records(b@) is None)
                ==> r == Err::<Spacecrafts, SpacecraftsError>(SpacecraftsError::InvalidBuiltin),
            r is Ok <==> (json_db_records(file@) is Some && (builtin matches Some(b) ==> json_db_records(
                b@,
            ) is Some)),
            r matches Ok(s) ==> {
                let f = json_db_records(file@)->0;
                &&& builtin is None ==> s.records() == f
                &&& builtin matches Some(b) ==> s.records() == f + added_records(
                    scids_of(f),
                    json_db_records(b@)->0,
                )
                &&& builtin is None ==> s.scids() == scids_of(f)
                &&& builtin matches Some(b) ==> s.scids() == scids_of(f) + added(
                    scids_of(f),
                    scids_of(json_db_records(b@)->0),
                )
            },
    {
        let db = match db_from_json(file) {
            Some(db) => db,
            None => return Err(SpacecraftsError::InvalidFile),
        };
        match builtin {
            None => Ok(Spacecrafts::from_db(db)),
            Some(b) => match db_from_json(b) {
                Some(bdb) => Ok(Spacecrafts::with_builtin(db, &bdb)),
                None => Err(SpacecraftsError::InvalidBuiltin),
            },
        }
    }

    /// Every spacecraft, in order.
    pub fn all(&self) -> (v: Vec<SpacecraftRecord>)
        ensures
            v@.len() == self.records().len(),
            forall|i: int| 0 <= i < v@.len() ==> record_view(#[trigger] v@[i]) == self.records()[i],
    {
        db_all(&self.db)
    }

    /// The first spacecraft with identifier `scid`, or `None` if there is none.
    pub fn lookup(&self, scid: Scid) -> (r: Option<SpacecraftRecord>)
        ensures
            r is Some <==> self.scids().contains(scid),
            r matches Some(rec) ==> record_view(rec) == self.records()[first_index(self.records(), scid)],
    {
        db_find(&self.db, scid)
    }
}

/// What [Spacecrafts::lookup] finds for an identifier that the database holds is
/// one of the records that [Spacecrafts::all] lists: the first with that identifier.
pub proof fn lemma_lookup_is_listed(s: &Spacecrafts, scid: Scid)
    requires
        s.scids().contains(scid),
    ensures
        ({
            let k = first_index(s.records(), scid);
            &&& 0 <= k < s.records().len()
            &&& s.records()[k].0 == scid
            &&& forall|j: int| 0 <= j < k ==> (#[trigger] s.records()[j]).0 != scid
        }),
{
    lemma_first_index(s.records(), scid);
}

} // verus!
