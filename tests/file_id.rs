use kvs::{extract_files, FileId, KvError};
use std::collections::HashMap;

#[test]
fn file_test_file_id_parse() {
    let res1 = FileId::parse("a_1");
    assert_eq!(res1.is_err(), false);
    let file_id = res1.unwrap();
    assert_eq!(file_id.is_compacted(), false);
    assert_eq!(file_id.version(), 1);

    let res2 = FileId::parse("c_2");
    assert_eq!(res2.is_err(), false);
    let file_id_2 = res2.unwrap();
    assert_eq!(file_id_2.is_compacted(), true);
    assert_eq!(file_id_2.version(), 2);
}

#[test]
fn file_test_file_id_to_string() {
    let s1: String = FileId::Append(12).into();
    assert_eq!("a_12".to_string(), s1);

    let s2: String = FileId::Compact(10).into();
    assert_eq!("c_10".to_string(), s2);
}

#[test]
fn test_file_id_ord() {
    let mut file_ids = vec![
        FileId::Append(2),
        FileId::Compact(2),
        FileId::Temp(2),
        FileId::Temp(1),
        FileId::Compact(1),
        FileId::Append(1),
    ];

    file_ids.sort();

    assert_eq!(6, file_ids.len());
    assert_eq!(
        file_ids,
        vec![
            FileId::Compact(1),
            FileId::Compact(2),
            FileId::Append(1),
            FileId::Append(2),
            FileId::Temp(1),
            FileId::Temp(2),
        ]
    );
}

#[test]
fn file_id_partial_cmp_orders_roles_then_versions() {
    assert!(FileId::Compact(9) < FileId::Append(1));
    assert!(FileId::Append(9) < FileId::Temp(1));
    assert!(FileId::Append(1) < FileId::Append(2));
    assert_eq!(
        FileId::Temp(3).partial_cmp(&FileId::Temp(3)),
        Some(std::cmp::Ordering::Equal)
    );
}

#[test]
fn test_file_id_as_key_map() {
    let mut map: HashMap<FileId, usize> = HashMap::new();

    map.insert(FileId::Append(1), 1);
    map.insert(FileId::Append(2), 2);
    map.insert(FileId::Compact(3), 3);

    assert_eq!(map.get(&FileId::Append(1)).unwrap(), &1);
    assert_eq!(map.get(&FileId::Append(2)).unwrap(), &2);
    assert_eq!(map.get(&FileId::Compact(3)).unwrap(), &3);
}

#[test]
fn file_id_parse_roles_and_largest_version() {
    assert_eq!(FileId::parse("t_0").unwrap(), FileId::Temp(0));
    assert_eq!(FileId::parse("a_4294967295").unwrap(), FileId::Append(4294967295));
    assert!(FileId::parse("t_0").unwrap().is_temp());
    assert!(FileId::parse("a_3").unwrap().is_append());
}

#[test]
fn file_id_parse_rejects_other_shapes() {
    for name in ["", "a", "a_", "x_1", "a1", "a_1_2", "a_-1", "a_4294967296", "ab_1", "a_1x", "a_+", "c_+7", "a_ 1"] {
        match FileId::parse(name) {
            Err(KvError::ParseFileId { path }) => assert_eq!(path, name),
            other => panic!("{} parsed as {:?}", name, other),
        }
    }
}

#[test]
fn file_id_name_round_trip() {
    for id in [
        FileId::Append(0),
        FileId::Compact(10),
        FileId::Temp(4294967295),
        FileId::Append(1000),
    ] {
        assert_eq!(FileId::parse(&id.to_string()).unwrap(), id);
        assert_eq!(id.to_file_name(), id.to_string());
    }
    assert_eq!(FileId::Temp(305).to_string(), "t_305");
}

fn entries(names: &[(&str, bool)]) -> Vec<(String, bool)> {
    names.iter().map(|(n, d)| (n.to_string(), *d)).collect()
}

#[test]
fn file_test_extract_empty_dir() {
    let res = extract_files(&entries(&[]));
    assert_eq!(res.is_ok(), true);
    let file_extract = res.unwrap();

    assert_eq!(file_extract.append_files.len(), 1);
    assert_eq!(file_extract.temp_files.len(), 0);
    assert_eq!(file_extract.compact_files.len(), 0);
    assert_eq!(file_extract.append_files[0], FileId::Append(1));
    assert_eq!(file_extract.last_version, 0);
}

#[test]
fn file_test_extract_dir() {
    let res = extract_files(&entries(&[
        ("temporary-dir", true),
        ("a_2", false),
        ("c_1", false),
        ("a_1", false),
    ]));

    let file_extract = res.unwrap();
    assert_eq!(file_extract.append_files.len(), 2);

    assert_eq!(file_extract.append_files[0].is_append(), true);
    assert_eq!(file_extract.append_files[0].version(), 1);

    assert_eq!(file_extract.append_files[1].is_append(), true);
    assert_eq!(file_extract.append_files[1].version(), 2);

    assert_eq!(file_extract.compact_files.len(), 1);
    assert_eq!(file_extract.compact_files[0].is_compacted(), true);
    assert_eq!(file_extract.compact_files[0].version(), 1);

    assert_eq!(file_extract.last_version, 2);
}

#[test]
fn extract_starts_after_largest_version_without_append_files() {
    let x = extract_files(&entries(&[("c_7", false), ("t_9", false), ("sub", true)])).unwrap();
    assert_eq!(x.append_files, vec![FileId::Append(10)]);
    assert_eq!(x.temp_files, vec![FileId::Temp(9)]);
    assert_eq!(x.compact_files, vec![FileId::Compact(7)]);
    assert_eq!(x.last_version, 9);
}

#[test]
fn extract_sorts_each_role_by_version() {
    let x = extract_files(&entries(&[
        ("t_5", false),
        ("a_30", false),
        ("t_2", false),
        ("a_4", false),
        ("a_11", false),
    ]))
    .unwrap();
    assert_eq!(x.append_files, vec![FileId::Append(4), FileId::Append(11), FileId::Append(30)]);
    assert_eq!(x.temp_files, vec![FileId::Temp(2), FileId::Temp(5)]);
    assert_eq!(x.last_version, 30);
}

#[test]
fn extract_fails_on_first_foreign_file() {
    match extract_files(&entries(&[("a_1", false), ("notes.txt", false), ("zz", false)])) {
        Err(KvError::ParseFileId { path }) => assert_eq!(path, "notes.txt"),
        other => panic!("unexpected {:?}", other),
    }
}

#[test]
fn extract_largest_version_saturates() {
    let x = extract_files(&entries(&[("c_4294967295", false)])).unwrap();
    assert_eq!(x.append_files, vec![FileId::Append(4294967295)]);
}
