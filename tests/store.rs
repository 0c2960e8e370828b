use kvs::{
    extract_files, live_values, read_value, write_compact_file, FileId, KvError, KvIndex,
    LogReader, LogWriter, MemLog, DUPLICATE_THRESHOLD,
};
use std::collections::BTreeMap;

/// A data directory held in memory: file contents by id.
struct MemStore {
    files: BTreeMap<FileId, Vec<u8>>,
    index: KvIndex<MemLog>,
}

impl MemStore {
    fn open(mut files: BTreeMap<FileId, Vec<u8>>) -> MemStore {
        let names: Vec<(String, bool)> = files.keys().map(|id| (id.to_string(), false)).collect();
        let extract = extract_files(&names).unwrap();
        let append = *extract.append_files.last().unwrap();
        let append_bytes = files.entry(append).or_default().clone();
        let compact_bytes = extract
            .compact_files
            .last()
            .map(|c| files[c].clone())
            .unwrap_or_default();
        let mut compact = LogReader::new(MemLog::new(compact_bytes));
        let mut append_reader = LogReader::new(MemLog::new(append_bytes.clone()));
        let index = KvIndex::open(
            &extract,
            &mut compact,
            &mut append_reader,
            MemLog::new(append_bytes.clone()),
        )
        .unwrap();
        assert_eq!(index.write_pos() as usize, append_bytes.len());
        MemStore { files, index }
    }

    fn close(mut self) -> BTreeMap<FileId, Vec<u8>> {
        let current = self.index.current_file();
        self.files.insert(current, self.index.sink().bytes().clone());
        self.files
    }

    fn bytes_of(&self, id: FileId) -> Vec<u8> {
        if id == self.index.current_file() {
            self.index.sink().bytes().clone()
        } else {
            self.files[&id].clone()
        }
    }

    fn get(&self, key: &str) -> Option<String> {
        let te = self.index.lookup(&key.to_string())?;
        let mut reader = LogReader::new(MemLog::new(self.bytes_of(te.file_id)));
        read_value(&mut reader, te).unwrap()
    }

    fn set(&mut self, key: &str, val: &str) {
        self.index.set(key.to_string(), val.to_string()).unwrap();
        if self.index.compaction_due() {
            self.compact();
        }
    }

    fn remove(&mut self, key: &str) -> Result<(), KvError> {
        let r = self.index.remove(&key.to_string());
        if self.index.compaction_due() {
            self.compact();
        }
        r
    }

    fn compact(&mut self) {
        let (c, a, items) = self.index.compaction_plan().unwrap();
        let mut read = Vec::new();
        for (_, te) in &items {
            let mut reader = LogReader::new(MemLog::new(self.bytes_of(te.file_id)));
            read.push(read_value(&mut reader, *te).unwrap());
        }
        let values = live_values(&items, &read);
        let mut writer = LogWriter::new(MemLog::new(Vec::new()));
        let rewritten = write_compact_file(&mut writer, &values).unwrap();
        let current = self.index.current_file();
        self.files.insert(current, self.index.sink().bytes().clone());
        self.files.insert(c, writer.into_sink().bytes().clone());
        let deleted = self
            .index
            .finish_compaction(c, a, &rewritten, MemLog::new(Vec::new()))
            .unwrap();
        self.files.insert(a, Vec::new());
        for f in deleted {
            self.files.remove(&f);
        }
    }

    fn size(&self) -> usize {
        self.files
            .iter()
            .map(|(id, b)| if *id == self.index.current_file() { self.index.sink().bytes().len() } else { b.len() })
            .sum()
    }
}

#[test]
fn store_test_get_non_existent_key() {
    let store = MemStore::open(BTreeMap::new());
    assert_eq!(store.get("key1").is_none(), true);
}

#[test]
fn kv_store_test_get_non_existent_key() {
    let store = MemStore::open(BTreeMap::new());
    assert_eq!(store.index.current_file(), FileId::Append(1));
    assert_eq!(store.get("key1"), None);
}

#[test]
fn get_stored_value() {
    let mut store = MemStore::open(BTreeMap::new());
    store.set("key1", "value1");
    store.set("key2", "value2");
    assert_eq!(store.get("key1"), Some("value1".to_owned()));
    assert_eq!(store.get("key2"), Some("value2".to_owned()));

    let store = MemStore::open(store.close());
    assert_eq!(store.get("key1"), Some("value1".to_owned()));
    assert_eq!(store.get("key2"), Some("value2".to_owned()));
}

#[test]
fn overwrite_value() {
    let mut store = MemStore::open(BTreeMap::new());
    store.set("key1", "value1");
    assert_eq!(store.get("key1"), Some("value1".to_owned()));
    store.set("key1", "value2");
    assert_eq!(store.get("key1"), Some("value2".to_owned()));

    let mut store = MemStore::open(store.close());
    assert_eq!(store.get("key1"), Some("value2".to_owned()));
    store.set("key1", "value3");
    assert_eq!(store.get("key1"), Some("value3".to_owned()));
}

#[test]
fn get_non_existent_value() {
    let mut store = MemStore::open(BTreeMap::new());
    store.set("key1", "value1");
    assert_eq!(store.get("key2"), None);

    let store = MemStore::open(store.close());
    assert_eq!(store.get("key2"), None);
}

#[test]
fn remove_non_existent_key() {
    let mut store = MemStore::open(BTreeMap::new());
    assert!(matches!(store.remove("key1"), Err(KvError::KeyNotFound)));
}

#[test]
fn remove_key() {
    let mut store = MemStore::open(BTreeMap::new());
    store.set("key1", "value1");
    assert!(store.remove("key1").is_ok());
    assert_eq!(store.get("key1"), None);

    let store = MemStore::open(store.close());
    assert_eq!(store.get("key1"), None);
}

#[test]
fn basic_set_get_remove_across_reopen() {
    let mut store = MemStore::open(BTreeMap::new());
    store.set("k1", "v1");
    store.set("k2", "v2");
    let mut store = MemStore::open(store.close());
    assert_eq!(store.get("k1"), Some("v1".to_owned()));
    assert_eq!(store.get("k2"), Some("v2".to_owned()));
    store.remove("k1").unwrap();
    assert_eq!(store.get("k1"), None);
    assert_eq!(store.get("k2"), Some("v2".to_owned()));
}

#[test]
fn compaction() {
    let mut store = MemStore::open(BTreeMap::new());
    let mut current_size = store.size();
    for iter in 0..1000 {
        for key_id in 0..1000 {
            store.set(&format!("key{}", key_id), &format!("{}", iter));
        }
        let new_size = store.size();
        if new_size > current_size {
            current_size = new_size;
            continue;
        }
        // compaction happened
        assert_eq!(store.index.current_file().version(), 2);
        for key_id in 0..1000 {
            assert_eq!(store.get(&format!("key{}", key_id)), Some(format!("{}", iter)));
        }
        let store = MemStore::open(store.close());
        for key_id in 0..1000 {
            assert_eq!(store.get(&format!("key{}", key_id)), Some(format!("{}", iter)));
        }
        assert_eq!(
            store.files.keys().cloned().collect::<Vec<_>>(),
            vec![FileId::Compact(1), FileId::Append(2)]
        );
        return;
    }
    panic!("No compaction detected");
}

#[test]
fn removals_count_toward_compaction() {
    let mut store = MemStore::open(BTreeMap::new());
    store.set("kept", "yes");
    for _ in 0..DUPLICATE_THRESHOLD - 1 {
        assert!(store.remove("missing").is_err());
    }
    assert!(store.index.compaction_due() == false);
    assert!(store.remove("missing").is_err());
    assert_eq!(store.index.current_file(), FileId::Append(2));
    assert_eq!(store.get("kept"), Some("yes".to_owned()));
}

#[test]
fn compaction_plan_lists_every_live_key() {
    let mut store = MemStore::open(BTreeMap::new());
    store.set("b", "2");
    store.set("a", "1");
    store.set("c", "3");
    store.remove("c").unwrap();
    let (c, a, items) = store.index.compaction_plan().unwrap();
    assert_eq!(c, FileId::Compact(1));
    assert_eq!(a, FileId::Append(2));
    let keys: Vec<String> = items.into_iter().map(|(k, _)| k).collect();
    assert_eq!(keys, vec!["a".to_string(), "b".to_string()]);
}

#[test]
fn finish_compaction_rejects_bad_offsets() {
    let mut store = MemStore::open(BTreeMap::new());
    store.set("a", "1");
    let rw = vec![("a".to_string(), "1".to_string(), 5), ("b".to_string(), "2".to_string(), 5)];
    let r = store.index.finish_compaction(FileId::Compact(1), FileId::Append(2), &rw, MemLog::new(Vec::new()));
    assert!(r.is_err());
    assert_eq!(store.index.current_file(), FileId::Append(1));
    assert_eq!(store.get("a"), Some("1".to_owned()));
}

#[test]
fn live_values_drop_removed_records() {
    let te = kvs::TableEntry { file_id: FileId::Append(1), offset: 0 };
    let items = vec![("a".to_string(), te), ("b".to_string(), te), ("c".to_string(), te)];
    let values = vec![Some("1".to_string()), None, Some("3".to_string())];
    assert_eq!(
        live_values(&items, &values),
        vec![("a".to_string(), "1".to_string()), ("c".to_string(), "3".to_string())]
    );
}

#[test]
fn open_rejects_a_corrupt_frame() {
    let mut files = BTreeMap::new();
    files.insert(FileId::Append(1), vec![0, 0, 0, 3, 1, 2, 3]);
    let names: Vec<(String, bool)> = files.keys().map(|id: &FileId| (id.to_string(), false)).collect();
    let extract = extract_files(&names).unwrap();
    let mut compact = LogReader::new(MemLog::new(Vec::new()));
    let mut append = LogReader::new(MemLog::new(files[&FileId::Append(1)].clone()));
    let r = KvIndex::open(&extract, &mut compact, &mut append, MemLog::new(Vec::new()));
    assert!(matches!(r, Err(KvError::DeserializeEntry { pos: 0, .. })));
}
