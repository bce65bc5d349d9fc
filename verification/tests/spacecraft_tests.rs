use ccsds::spacecraft_db::{Spacecrafts, SpacecraftsError};
use spacecrafts::DB;

fn json(scids: &[u16]) -> String {
    let crafts: Vec<String> = scids
        .iter()
        .map(|s| {
            format!(
                r#"{{"scid": {s}, "name": "sc{s}", "aliases": [], "catalogNumber": 1,
                "framingConfig": {{"length": 892, "insertZoneLength": 0, "trailerLength": 0,
                "pseudoNoise": null, "reedSolomon": null}}, "vcids": [], "links": null}}"#
            )
        })
        .collect();
    format!(
        r#"{{"version": "x", "gitSha": "x", "generated": "now", "spacecrafts": [{}]}}"#,
        crafts.join(",")
    )
}

fn db(scids: &[u16]) -> DB {
    serde_json::from_str(&json(scids)).unwrap()
}

#[test]
fn lookup_finds_spacecraft() {
    let crafts = Spacecrafts::from_db(db(&[157, 159]));
    let snpp = crafts.lookup(157).unwrap();
    assert_eq!(snpp.scid, 157);
    assert!(crafts.lookup(1).is_none());
    assert_eq!(crafts.all().len(), 2);
}

#[test]
fn builtin_spacecrafts_do_not_replace_file_ones() {
    let crafts = Spacecrafts::with_builtin(db(&[157]), &db(&[157, 159, 160]));
    let scids: Vec<u16> = crafts.all().iter().map(|s| s.scid).collect();
    assert_eq!(scids, vec![157, 159, 160]);
    assert_eq!(crafts.lookup(157).unwrap().name, "sc157");
}

#[test]
fn databases_are_read_from_json_bytes() {
    let file = json(&[157]);
    let builtin = json(&[157, 159, 160]);
    let crafts = Spacecrafts::with_file_bytes(file.as_bytes(), None).unwrap();
    assert_eq!(crafts.all().len(), 1);
    let merged = Spacecrafts::with_file_bytes(file.as_bytes(), Some(builtin.as_bytes())).unwrap();
    let all = merged.all();
    let scids: Vec<u16> = all.iter().map(|s| s.scid).collect();
    assert_eq!(scids, vec![157, 159, 160]);
    assert_eq!(all.iter().filter(|s| s.scid == 157).count(), 1);
    assert_eq!(all[1].name, "sc159");
    assert_eq!(all[1].catalog_number, 1);
    assert!(matches!(Spacecrafts::with_file_bytes(b"not json", None), Err(SpacecraftsError::InvalidFile)));
    assert!(matches!(
        Spacecrafts::with_file_bytes(file.as_bytes(), Some(b"{}")),
        Err(SpacecraftsError::InvalidBuiltin)
    ));
}

#[test]
fn lookup_returns_the_first_record_with_the_identifier() {
    let crafts = Spacecrafts::from_db(db(&[159, 157, 157]));
    let rec = crafts.lookup(157).unwrap();
    assert_eq!(rec.scid, 157);
    assert_eq!(rec.name, "sc157");
    assert_eq!(rec.spacecraft.scid, 157);
}
