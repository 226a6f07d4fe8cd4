use safe_nfs::content_store::{ContentRef, ContentStore};
use safe_nfs::directory_key::{AccessLevel, DirectoryKey};
use safe_nfs::directory_listing::DirectoryListing;
use safe_nfs::directory_store::DirectoryStore;
use safe_nfs::errors::NfsError;
use safe_nfs::file_helper::FileHelper;
use safe_nfs::file_record::FileRecord;
use safe_nfs::utils::{generate_random_pin, generate_random_string};
use safe_nfs::writer::Mode;

fn new_helper() -> FileHelper {
    FileHelper::new(ContentStore::new(), DirectoryStore::new())
}

fn new_dir(id: u64) -> DirectoryListing {
    DirectoryListing::new(DirectoryKey::new(id, 0, true, AccessLevel::Private), None)
}

#[test]
fn file_crud() {
    let mut helper = new_helper();
    let mut directory = new_dir(1);
    let file_name = "hello.txt".to_string();
    {
        // create
        let mut writer = helper
            .create(file_name.clone(), Vec::new(), directory)
            .unwrap();
        writer.write(&vec![0u8; 100], 0);
        let (updated_directory, _) = writer
            .close(&mut helper.content, &mut helper.dirs)
            .unwrap();
        directory = updated_directory;
        assert!(directory.find_file(&file_name).is_some());
    }
    {
        // read
        let file = directory.find_file(&file_name).expect("File not found");
        let reader = helper.read(file).unwrap();
        let size = reader.size();
        assert_eq!(reader.read(0, size).unwrap(), vec![0u8; 100]);
    }
    {
        // update - full rewrite
        let file = directory
            .find_file(&file_name)
            .map(|file| file.duplicate())
            .expect("File not found");
        let mut writer = helper
            .update_content(file, Mode::Overwrite, directory)
            .unwrap();
        writer.write(&vec![1u8; 50], 0);
        let (updated_directory, _) = writer
            .close(&mut helper.content, &mut helper.dirs)
            .unwrap();
        directory = updated_directory;
        let file = directory.find_file(&file_name).expect("File not found");
        let reader = helper.read(file).unwrap();
        let size = reader.size();
        assert_eq!(reader.read(0, size).unwrap(), vec![1u8; 50]);
    }
    {
        // update - partial rewrite
        let file = directory
            .find_file(&file_name)
            .map(|file| file.duplicate())
            .expect("File not found");
        let mut writer = helper
            .update_content(file, Mode::Modify, directory)
            .unwrap();
        writer.write(&vec![2u8; 10], 0);
        let (updated_directory, _) = writer
            .close(&mut helper.content, &mut helper.dirs)
            .unwrap();
        directory = updated_directory;
        let file = directory.find_file(&file_name).expect("File not found");
        let reader = helper.read(file).unwrap();
        let size = reader.size();
        let data = reader.read(0, size).unwrap();
        assert_eq!(&data[0..10], [2u8; 10]);
        assert_eq!(&data[10..20], [1u8; 10]);
    }
    {
        // versions
        let file = directory
            .find_file(&file_name)
            .map(|file| file.duplicate())
            .expect("File not found");
        let versions = helper.get_versions(&file, &directory).unwrap();
        assert_eq!(versions.len(), 3);
    }
    {
        // update metadata
        let mut file = directory
            .find_file(&file_name)
            .map(|file| file.duplicate())
            .expect("File not found");
        file.set_user_metadata(vec![12u8; 10]);
        let _ = helper.update_metadata(file, &mut directory).unwrap();
        let file = directory
            .find_file(&file_name)
            .map(|file| file.duplicate())
            .expect("File not found");
        assert_eq!(file.user_metadata, vec![12u8; 10]);
    }
    {
        // delete
        let _ = helper.delete(file_name.clone(), &mut directory).unwrap();
        assert!(directory.find_file(&file_name).is_none());
    }
}

#[test]
fn round_trip_subranges() {
    let mut helper = new_helper();
    let directory = new_dir(2);
    let name = "data.bin".to_string();
    let payload: Vec<u8> = (0..200u32).map(|i| (i % 251) as u8).collect();
    let mut writer = helper.create(name.clone(), vec![9u8], directory).unwrap();
    writer.write(&payload, 0);
    let (directory, _) = writer
        .close(&mut helper.content, &mut helper.dirs)
        .unwrap();
    let file = directory.find_file(&name).unwrap();
    let reader = helper.read(file).unwrap();
    assert_eq!(reader.size(), 200);
    assert_eq!(reader.read(0, 200).unwrap(), payload);
    assert_eq!(reader.read(10, 5).unwrap(), payload[10..15].to_vec());
    assert_eq!(reader.read(199, 1).unwrap(), payload[199..200].to_vec());
    assert_eq!(reader.read(200, 0).unwrap(), Vec::<u8>::new());
    assert_eq!(reader.read(150, 100).unwrap_err(), NfsError::RangeError);
}

#[test]
fn overlapping_writes_before_close() {
    let mut helper = new_helper();
    let directory = new_dir(3);
    let name = "overlap.bin".to_string();
    let mut writer = helper.create(name.clone(), Vec::new(), directory).unwrap();
    writer.write(&vec![5u8; 20], 0);
    writer.write(&vec![7u8; 10], 5);
    let (directory, _) = writer
        .close(&mut helper.content, &mut helper.dirs)
        .unwrap();
    let file = directory.find_file(&name).unwrap();
    let reader = helper.read(file).unwrap();
    let data = reader.read(0, reader.size()).unwrap();
    assert_eq!(data.len(), 20);
    assert_eq!(&data[0..5], [5u8; 5]);
    assert_eq!(&data[5..15], [7u8; 10]);
    assert_eq!(&data[15..20], [5u8; 5]);
}

#[test]
fn large_content_through_store() {
    let mut helper = new_helper();
    let directory = new_dir(4);
    let name = "big.bin".to_string();
    let payload: Vec<u8> = (0..3000u32).map(|i| (i % 256) as u8).collect();
    let mut writer = helper.create(name.clone(), Vec::new(), directory).unwrap();
    writer.write(&payload, 0);
    let (directory, _) = writer
        .close(&mut helper.content, &mut helper.dirs)
        .unwrap();
    let file = directory.find_file(&name).unwrap();
    match &file.content {
        ContentRef::ChunkMap { .. } => {}
        other => panic!("expected stored content, got {:?}", other),
    }
    let reader = helper.read(file).unwrap();
    assert_eq!(reader.read(0, 3000).unwrap(), payload);
    assert_eq!(reader.read(2990, 10).unwrap(), payload[2990..3000].to_vec());
}

#[test]
fn delete_then_create_keeps_history() {
    let mut helper = new_helper();
    let mut directory = new_dir(5);
    let name = "phoenix.txt".to_string();
    let mut writer = helper.create(name.clone(), Vec::new(), directory).unwrap();
    writer.write(&vec![1u8; 30], 0);
    let closed = writer
        .close(&mut helper.content, &mut helper.dirs)
        .unwrap();
    directory = closed.0;
    let old_record = directory.find_file(&name).unwrap().duplicate();
    let _ = helper.delete(name.clone(), &mut directory).unwrap();
    assert!(directory.find_file(&name).is_none());
    let mut writer = helper.create(name.clone(), Vec::new(), directory).unwrap();
    writer.write(&vec![2u8; 10], 0);
    let closed = writer
        .close(&mut helper.content, &mut helper.dirs)
        .unwrap();
    directory = closed.0;
    // the new file is visible under the current snapshot
    let current = directory.find_file(&name).unwrap();
    assert_ne!(current.id, old_record.id);
    let reader = helper.read(current).unwrap();
    assert_eq!(reader.read(0, 10).unwrap(), vec![2u8; 10]);
    // the old content remains reachable via the prior versions
    let key = directory.get_key();
    let v0 = helper
        .dirs
        .get_by_version(&key, AccessLevel::Private, 0)
        .unwrap();
    let historic = v0.find_file(&name).unwrap();
    assert_eq!(historic.id, old_record.id);
    let reader = helper.read(historic).unwrap();
    assert_eq!(reader.read(0, 30).unwrap(), vec![1u8; 30]);
    // the deletion snapshot does not list the file
    let v1 = helper
        .dirs
        .get_by_version(&key, AccessLevel::Private, 1)
        .unwrap();
    assert!(v1.find_file(&name).is_none());
}

#[test]
fn versions_strictly_increasing() {
    let mut helper = new_helper();
    let mut directory = new_dir(6);
    let name = "v.txt".to_string();
    for round in 0u8..3u8 {
        let mut writer = if round == 0 {
            helper.create(name.clone(), Vec::new(), directory).unwrap()
        } else {
            let file = directory.find_file(&name).unwrap().duplicate();
            helper
                .update_content(file, Mode::Overwrite, directory)
                .unwrap()
        };
        writer.write(&vec![round; 8], 0);
        let closed = writer
            .close(&mut helper.content, &mut helper.dirs)
            .unwrap();
        directory = closed.0;
    }
    let file = directory.find_file(&name).unwrap().duplicate();
    let versions = helper.get_versions(&file, &directory).unwrap();
    assert_eq!(versions.len(), 3);
    for i in 1..versions.len() {
        assert!(versions[i - 1].modified_at < versions[i].modified_at);
    }
}

#[test]
fn update_content_conflict_on_stale_record() {
    let mut helper = new_helper();
    let directory = new_dir(7);
    let name = "guard.txt".to_string();
    let mut writer = helper.create(name.clone(), Vec::new(), directory).unwrap();
    writer.write(&vec![3u8; 4], 0);
    let (directory, _) = writer
        .close(&mut helper.content, &mut helper.dirs)
        .unwrap();
    let mut stale = directory.find_file(&name).unwrap().duplicate();
    stale.set_user_metadata(vec![1u8]);
    let err = helper
        .update_content(stale, Mode::Overwrite, directory)
        .unwrap_err();
    assert_eq!(err, NfsError::Conflict);
}

#[test]
fn update_content_not_found() {
    let mut helper = new_helper();
    let directory = new_dir(8);
    let name = "there.txt".to_string();
    let mut writer = helper.create(name.clone(), Vec::new(), directory).unwrap();
    writer.write(&vec![3u8; 4], 0);
    let (directory, _) = writer
        .close(&mut helper.content, &mut helper.dirs)
        .unwrap();
    let mut ghost_rec = directory.find_file(&name).unwrap().duplicate();
    ghost_rec.name = "missing.txt".to_string();
    let err = helper
        .update_content(ghost_rec, Mode::Overwrite, directory)
        .unwrap_err();
    assert_eq!(err, NfsError::NotFound);
}

#[test]
fn rename_collision_leaves_original_unchanged() {
    let mut helper = new_helper();
    let mut directory = new_dir(9);
    for name in ["a.txt", "b.txt"] {
        let mut writer = helper
            .create(name.to_string(), Vec::new(), directory)
            .unwrap();
        writer.write(&[9u8], 0);
        let closed = writer
            .close(&mut helper.content, &mut helper.dirs)
            .unwrap();
        directory = closed.0;
    }
    let mut renamed = directory
        .find_file(&"a.txt".to_string())
        .unwrap()
        .duplicate();
    renamed.name = "b.txt".to_string();
    let before_a = directory
        .find_file(&"a.txt".to_string())
        .unwrap()
        .duplicate();
    let err = helper
        .update_metadata(renamed, &mut directory)
        .unwrap_err();
    assert_eq!(err, NfsError::AlreadyExists);
    let after_a = directory.find_file(&"a.txt".to_string()).unwrap();
    assert!(after_a.matches_record(&before_a));
    assert!(directory.find_file(&"b.txt".to_string()).is_some());
}

#[test]
fn rename_without_collision() {
    let mut helper = new_helper();
    let mut directory = new_dir(10);
    let mut writer = helper
        .create("old.txt".to_string(), Vec::new(), directory)
        .unwrap();
    writer.write(&[1u8], 0);
    let closed = writer
        .close(&mut helper.content, &mut helper.dirs)
        .unwrap();
    directory = closed.0;
    let mut renamed = directory
        .find_file(&"old.txt".to_string())
        .unwrap()
        .duplicate();
    renamed.name = "new.txt".to_string();
    let _ = helper.update_metadata(renamed, &mut directory).unwrap();
    assert!(directory.find_file(&"old.txt".to_string()).is_none());
    let found = directory.find_file(&"new.txt".to_string()).unwrap();
    assert_eq!(found.name, "new.txt");
}

#[test]
fn persist_race_one_conflict() {
    let mut store = DirectoryStore::new();
    let key = DirectoryKey::new(11, 0, true, AccessLevel::Private);
    let base = DirectoryListing::new(key, None);
    let first = base.duplicate();
    let second = base.duplicate();
    assert!(store.persist(&first).is_ok());
    let err = store.persist(&second).unwrap_err();
    assert_eq!(err, NfsError::Conflict);
    // the loser re-fetches the current snapshot and reapplies its change
    let mut refreshed = store.get_current(&key).unwrap();
    refreshed.advance_version();
    assert!(store.persist(&refreshed).is_ok());
}

#[test]
fn propagation_walks_all_ancestors() {
    let mut store = DirectoryStore::new();
    let root_key = DirectoryKey::new(20, 0, true, AccessLevel::Private);
    let mid_key = DirectoryKey::new(21, 0, true, AccessLevel::Private);
    let leaf_key = DirectoryKey::new(22, 0, true, AccessLevel::Private);
    // leaf at version 0
    let leaf = DirectoryListing::new(leaf_key, Some(mid_key));
    store.persist(&leaf).unwrap();
    // mid pins leaf version 0, root pins mid version 0
    let mut mid = DirectoryListing::new(mid_key, Some(root_key));
    mid.upsert_subdir(leaf_key, 0);
    store.persist(&mid).unwrap();
    let mut root = DirectoryListing::new(root_key, None);
    root.upsert_subdir(mid_key, 0);
    store.persist(&root).unwrap();
    // a new leaf version must bubble to mid and then to root
    let mut leaf2 = store.get_current(&leaf_key).unwrap();
    leaf2.advance_version();
    let ups = store.persist(&leaf2).unwrap();
    assert_eq!(ups.len(), 2);
    assert_eq!(ups[0].get_key(), mid_key);
    assert_eq!(ups[1].get_key(), root_key);
    let mid_now = store.get_current(&mid_key).unwrap();
    assert_eq!(mid_now.get_subdir_version(leaf_key), Some(1));
    let root_now = store.get_current(&root_key).unwrap();
    assert_eq!(root_now.get_subdir_version(mid_key), Some(1));
}

#[test]
fn store_version_history_errors() {
    let mut store = DirectoryStore::new();
    let unversioned = DirectoryKey::new(30, 0, false, AccessLevel::Private);
    assert_eq!(
        store.get_versions(&unversioned).unwrap_err(),
        NfsError::InvalidOperation
    );
    let key = DirectoryKey::new(31, 0, true, AccessLevel::Public);
    assert_eq!(store.get_versions(&key).unwrap_err(), NfsError::NotFound);
    let listing = DirectoryListing::new(key, None);
    store.persist(&listing).unwrap();
    assert_eq!(store.get_versions(&key).unwrap(), vec![0u64]);
    assert_eq!(
        store
            .get_by_version(&key, AccessLevel::Private, 0)
            .unwrap_err(),
        NfsError::AccessDenied
    );
    assert_eq!(
        store
            .get_by_version(&key, AccessLevel::Public, 1)
            .unwrap_err(),
        NfsError::NotFound
    );
    assert!(store.get_by_version(&key, AccessLevel::Public, 0).is_ok());
}

#[test]
fn create_duplicate_name_fails() {
    let mut helper = new_helper();
    let directory = new_dir(40);
    let mut writer = helper
        .create("same.txt".to_string(), Vec::new(), directory)
        .unwrap();
    writer.write(&[1u8], 0);
    let (directory, _) = writer
        .close(&mut helper.content, &mut helper.dirs)
        .unwrap();
    let err = helper
        .create("same.txt".to_string(), Vec::new(), directory)
        .unwrap_err();
    assert_eq!(err, NfsError::AlreadyExists);
}

#[test]
fn delete_missing_fails_not_found() {
    let mut helper = new_helper();
    let mut directory = new_dir(41);
    let err = helper
        .delete("nothing.txt".to_string(), &mut directory)
        .unwrap_err();
    assert_eq!(err, NfsError::NotFound);
}

#[test]
fn dangling_reference_fails_storage() {
    let helper = new_helper();
    let record = FileRecord {
        id: 1,
        name: "dangling.bin".to_string(),
        user_metadata: Vec::new(),
        size: 3,
        created_at: 0,
        modified_at: 0,
        content: ContentRef::ChunkMap { blob: 5, size: 3 },
    };
    assert_eq!(
        helper.read(&record).unwrap_err(),
        NfsError::StorageFailure
    );
}

#[test]
fn random_utils() {
    let s = generate_random_string(12);
    assert_eq!(s.chars().count(), 12);
    assert_eq!(generate_random_string(0).chars().count(), 0);
    for _ in 0..32 {
        assert!(generate_random_pin() < 10000);
    }
}
