use pict_rs::error::UploadError;
use pict_rs::media::{Format, ImageType};
use pict_rs::upload_manager::{hash_content, next_file_name, Dup, UploadManager};

fn manager() -> UploadManager {
    let db = sled::Config::new().temporary(true).open().unwrap();
    UploadManager::new(db, "/data/files".to_string(), None).unwrap()
}

fn is_generated(name: &str, ext: &str) -> bool {
    match name.strip_suffix(ext) {
        Some(stem) => stem.len() >= 10 && stem.chars().all(|c| c.is_ascii_alphanumeric()),
        None => false,
    }
}

/// Runs the index side of an upload: a fresh alias, then dedup under a new
/// candidate filename.
fn upload(m: &mut UploadManager, bytes: &[u8], t: ImageType) -> (String, Dup, String) {
    let hash = hash_content(bytes);
    let alias = m.add_alias(&hash, t).unwrap();
    let (dup, name) = m.check_duplicate(&hash, &next_file_name(10, t)).unwrap();
    (alias, dup, name)
}

#[test]
fn sha256_of_known_input() {
    let h = hash_content(b"abc");
    let hex: String = h.inner.iter().map(|b| format!("{:02x}", b)).collect();
    assert_eq!(hex, "ba7816bf8f01cfea414140de5dae2223b00361a396177a9cb410ff61f20015ad");
    assert_ne!(hash_content(b"abd").inner, h.inner);
}

#[test]
fn hash_new_keeps_bytes() {
    assert_eq!(pict_rs::upload_manager::Hash::new(vec![1, 2, 3]).inner, vec![1, 2, 3]);
    assert!(Dup::Exists.already_exists());
    assert!(!Dup::New.already_exists());
}

#[test]
fn manager_keeps_its_settings() {
    let db = sled::Config::new().temporary(true).open().unwrap();
    let m = UploadManager::new(db, "/srv/files".to_string(), Some(Format::Png)).unwrap();
    assert_eq!(m.image_dir(), "/srv/files");
    assert_eq!(m.format(), Some(Format::Png));
}

#[test]
fn upload_returns_png_alias_and_token() {
    let mut m = manager();
    let (alias, dup, name) = upload(&mut m, b"red ten by ten", ImageType::Png);
    assert!(is_generated(&alias, ".png"));
    assert_eq!(dup, Dup::New);
    assert!(is_generated(&name, ".png"));
    let token = m.delete_token(&alias).unwrap();
    assert_eq!(token.len(), 10);
    assert!(token.chars().all(|c| c.is_ascii_alphanumeric()));
    assert_eq!(m.from_alias(&alias).unwrap(), name);
}

#[test]
fn same_bytes_twice_share_one_file() {
    let mut m = manager();
    let (a1, d1, f1) = upload(&mut m, b"same content", ImageType::Png);
    let (a2, d2, f2) = upload(&mut m, b"same content", ImageType::Png);
    assert_ne!(a1, a2);
    assert_eq!(d1, Dup::New);
    assert_eq!(d2, Dup::Exists);
    assert_eq!(f1, f2);
    assert_eq!(m.from_alias(&a1).unwrap(), m.from_alias(&a2).unwrap());
}

#[test]
fn different_bytes_get_different_files() {
    let mut m = manager();
    let (_, _, f1) = upload(&mut m, b"one", ImageType::Jpeg);
    let (_, d2, f2) = upload(&mut m, b"two", ImageType::Jpeg);
    assert_eq!(d2, Dup::New);
    assert_ne!(f1, f2);
    assert!(f2.ends_with(".jpg"));
}

#[test]
fn delete_token_is_stable() {
    let mut m = manager();
    let (alias, _, _) = upload(&mut m, b"tok", ImageType::Gif);
    let first = m.delete_token(&alias).unwrap();
    for _ in 0..5 {
        assert_eq!(m.delete_token(&alias).unwrap(), first);
    }
}

#[test]
fn import_twice_is_a_duplicate_alias() {
    let mut m = manager();
    let hash = hash_content(b"banner bytes");
    assert_eq!(m.add_existing_alias(&hash, "banner.jpg"), Ok(()));
    let (dup, name) = m.check_duplicate(&hash, "stored.jpg").unwrap();
    assert_eq!(dup, Dup::New);
    assert_eq!(name, "stored.jpg");
    assert_eq!(m.add_existing_alias(&hash, "banner.jpg"), Err(UploadError::DuplicateAlias));
    assert_eq!(m.from_alias("banner.jpg").unwrap(), "stored.jpg");
}

#[test]
fn lookup_of_unknown_alias() {
    let m = manager();
    assert_eq!(m.from_alias("nothing.png"), Err(UploadError::MissingAlias));
}

#[test]
fn alias_without_file_is_missing_file() {
    let mut m = manager();
    let hash = hash_content(b"no file yet");
    m.add_existing_alias(&hash, "early.png").unwrap();
    assert_eq!(m.from_alias("early.png"), Err(UploadError::MissingFile));
}

#[test]
fn wrong_token_is_rejected_and_changes_nothing() {
    let mut m = manager();
    let (alias, _, name) = upload(&mut m, b"keep me", ImageType::Png);
    let token = m.delete_token(&alias).unwrap();
    assert_eq!(m.delete(&alias, "wrongtoken"), Err(UploadError::InvalidToken));
    assert_eq!(m.from_alias(&alias).unwrap(), name);
    assert_eq!(m.delete_token(&alias).unwrap(), token);
}

#[test]
fn delete_without_token_is_missing_alias() {
    let mut m = manager();
    let (alias, _, _) = upload(&mut m, b"no token", ImageType::Png);
    assert_eq!(m.delete(&alias, "anything"), Err(UploadError::MissingAlias));
    assert_eq!(m.delete("unknown.png", "anything"), Err(UploadError::MissingAlias));
}

#[test]
fn delete_last_alias_hands_back_filename() {
    let mut m = manager();
    let (alias, _, name) = upload(&mut m, b"delete me", ImageType::Png);
    let token = m.delete_token(&alias).unwrap();
    assert_eq!(m.delete(&alias, &token), Ok(Some(name.clone())));
    assert_eq!(m.from_alias(&alias), Err(UploadError::MissingAlias));
    assert_eq!(m.delete(&alias, &token), Err(UploadError::MissingAlias));
    assert_eq!(m.cleanup_files(&name), Ok(vec![]));
    assert_eq!(m.cleanup_files(&name), Err(UploadError::MissingFile));
}

#[test]
fn delete_keeps_content_of_other_aliases() {
    let mut m = manager();
    let (a1, _, name) = upload(&mut m, b"shared", ImageType::Png);
    let (a2, _, _) = upload(&mut m, b"shared", ImageType::Png);
    let t1 = m.delete_token(&a1).unwrap();
    assert_eq!(m.delete(&a1, &t1), Ok(None));
    assert_eq!(m.from_alias(&a2).unwrap(), name);
    let t2 = m.delete_token(&a2).unwrap();
    assert_eq!(m.delete(&a2, &t2), Ok(Some(name)));
}

#[test]
fn variants_are_recorded_and_purged() {
    let mut m = manager();
    let (alias, _, name) = upload(&mut m, b"with variants", ImageType::Jpeg);
    let thumb = format!("/data/files/thumbnail/256/{}", name);
    let blur = format!("/data/files/blur/2/{}", name);
    assert_eq!(m.store_variant(&thumb), Ok(()));
    assert_eq!(m.store_variant(&thumb), Ok(()));
    assert_eq!(m.store_variant(&blur), Ok(()));
    assert_eq!(m.store_variant("/data/files/thumbnail/1/unknown.jpg"), Err(UploadError::MissingFilename));
    let token = m.delete_token(&alias).unwrap();
    assert_eq!(m.delete(&alias, &token), Ok(Some(name.clone())));
    let mut paths = m.cleanup_files(&name).unwrap();
    paths.sort();
    let mut expected = vec![blur, thumb];
    expected.sort();
    assert_eq!(paths, expected);
}

#[test]
fn candidate_file_names() {
    let name = next_file_name(12, ImageType::Webp);
    assert!(name.ends_with(".webp"));
    assert_eq!(name.len(), 12 + 5);
    assert!(name[..12].chars().all(|c| c.is_ascii_alphanumeric()));
}

#[test]
fn upload_indexes_bytes_in_one_call() {
    let mut m = manager();
    let (a1, d1, f1) = m.upload(b"pixels", ImageType::Png, "first1234.png").unwrap();
    assert!(is_generated(&a1, ".png"));
    assert_eq!(d1, Dup::New);
    assert_eq!(f1, "first1234.png");
    let (a2, d2, f2) = m.upload(b"pixels", ImageType::Png, "second123.png").unwrap();
    assert_ne!(a1, a2);
    assert_eq!(d2, Dup::Exists);
    assert_eq!(f2, "first1234.png");
    assert_eq!(m.from_alias(&a2).unwrap(), "first1234.png");
}

#[test]
fn import_keeps_callers_alias() {
    let mut m = manager();
    assert_eq!(
        m.import("banner.jpg", b"banner", "stored1234.jpg"),
        Ok((Dup::New, "stored1234.jpg".to_string()))
    );
    assert_eq!(m.import("banner.jpg", b"banner", "other12345.jpg"), Err(UploadError::DuplicateAlias));
    assert_eq!(
        m.import("banner2.jpg", b"banner", "other12345.jpg"),
        Ok((Dup::Exists, "stored1234.jpg".to_string()))
    );
}

#[test]
fn tmp_names() {
    let name = pict_rs::upload_manager::tmp_file_name();
    assert_eq!(name.len(), 14);
    assert!(name.ends_with(".tmp"));
    assert!(name[..10].chars().all(|c| c.is_ascii_alphanumeric()));
}

#[test]
fn path_text() {
    let p = std::path::PathBuf::from("/data/files/a.png");
    assert_eq!(pict_rs::upload_manager::ptos(&p), Ok("/data/files/a.png".to_string()));
}

#[test]
fn delete_with_token_but_no_alias_rows() {
    let mut m = manager();
    let token = m.delete_token("ghost.png").unwrap();
    assert_eq!(m.delete("ghost.png", &token), Err(UploadError::MissingAlias));
    assert_eq!(m.delete_token("ghost.png").unwrap(), token);
}

#[test]
fn delete_of_alias_whose_hash_has_no_file() {
    let mut m = manager();
    let hash = hash_content(b"never stored");
    m.add_existing_alias(&hash, "lonely.png").unwrap();
    let token = m.delete_token("lonely.png").unwrap();
    assert_eq!(m.delete("lonely.png", &token), Ok(None));
    assert_eq!(m.from_alias("lonely.png"), Err(UploadError::MissingAlias));
}

#[test]
fn upload_refuses_a_bound_candidate() {
    let mut m = manager();
    m.upload(b"first", ImageType::Png, "taken12345.png").unwrap();
    assert_eq!(
        m.upload(b"second", ImageType::Png, "taken12345.png"),
        Err(UploadError::FileExists)
    );
    assert_eq!(
        m.import("other.png", b"second", "taken12345.png"),
        Err(UploadError::FileExists)
    );
}

#[test]
fn import_of_taken_alias_whatever_the_candidate() {
    let mut m = manager();
    m.import("banner.jpg", b"banner", "stored1234.jpg").unwrap();
    assert_eq!(m.import("banner.jpg", b"other", "stored1234.jpg"), Err(UploadError::DuplicateAlias));
    assert_eq!(m.import("banner.jpg", b"other", "fresh12345.jpg"), Err(UploadError::DuplicateAlias));
    assert_eq!(m.from_alias("banner.jpg").unwrap(), "stored1234.jpg");
}
