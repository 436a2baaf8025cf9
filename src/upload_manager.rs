//! The index of aliases, hashes and filenames, and the protocols that
//! change it: registering uploads, deduplicating content, handing out
//! delete tokens, deleting aliases and purging content.
//!
//! Rows, by keyspace:
//! - default: `hash → filename`, `hash ‖ 0 ‖ id → alias`, `hash ‖ 2 ‖ path → path`;
//! - alias: `alias → hash`, `"<alias>/id" → id`, `"<alias>/delete" → token`;
//! - filename: `filename → hash`.
use vstd::prelude::*;
use vstd::string::StringSliceAdditionalSpecFns;
use vstd::utf8::encode_utf8;
use vstd::utf8::valid_utf8;
use rand::distributions::Distribution;
use sha2::Digest;
use crate::error::UploadError;
use crate::keys::{
    alias_id_key, alias_key, alias_key_bounds, alias_key_bytes, bytes_eq, alias_row_key, delete_key, delete_suffix,
    id_suffix, variant_key, variant_key_bounds, variant_row_key,
};
use crate::media::{ext_of, file_name, Format, ImageType};
use crate::processor::decimal_text;
use crate::store::{
    bytes_of, db_default_tree, db_error_text, db_generate_id, db_open_tree, keys_between, lookup,
    remove_rows_together, rows, tree_any_between, tree_get, tree_insert, tree_insert_new,
    tree_keys_between, tree_remove,
};

verus! {

/// A character that the alphanumeric distribution draws.
pub open spec fn is_alnum(c: char) -> bool {
    ('a' <= c && c <= 'z') || ('A' <= c && c <= 'Z') || ('0' <= c && c <= '9')
}

pub open spec fn all_alnum(s: Seq<char>) -> bool {
    forall|i: int| 0 <= i < s.len() ==> is_alnum(#[trigger] s[i])
}

/// The SHA-256 digest of a byte string.
pub uninterp spec fn sha256_of(b: Seq<u8>) -> Seq<u8>;

/// Relies on rand's `Alphanumeric` distribution over the thread's generator:
/// `len` characters, each from `A-Z`, `a-z` or `0-9`.
#[verifier::external_body]
fn random_alphanumeric(len: usize) -> (r: String)
    ensures
        r@.len() == len,
        all_alnum(r@),
{
    rand::distributions::Alphanumeric.sample_iter(rand::thread_rng()).take(len).collect()
}

/// Relies on sha2's `Sha256::digest`: the 32-byte digest of the bytes.
#[verifier::external_body]
fn sha256(b: &[u8]) -> (r: Vec<u8>)
    ensures
        r@ == sha256_of(b@),
        r@.len() == 32,
{
    sha2::Sha256::digest(b).to_vec()
}

/// Relies on `String::from_utf8`: the text of bytes that are valid UTF-8.
#[verifier::external_body]
fn text_from_bytes(b: Vec<u8>) -> (r: Option<String>)
    ensures
        r is Some <==> valid_utf8(b@),
        r matches Some(s) ==> encode_utf8(s@) == b@,
{
    String::from_utf8(b).ok()
}

/// The SHA-256 of canonical image bytes: the identity of stored content.
#[derive(Debug)]
pub struct Hash {
    pub inner: Vec<u8>,
}

impl Hash {
    pub fn new(inner: Vec<u8>) -> (r: Hash)
        ensures
            r.inner@ == inner@,
    {
        Hash { inner }
    }
}

/// The hash of content, as the index keys it.
pub fn hash_content(bytes: &[u8]) -> (h: Hash)
    ensures
        h.inner@ == sha256_of(bytes@),
        h.inner@.len() == 32,
{
    Hash::new(sha256(bytes))
}

/// Whether stored content was already present.
#[derive(Debug, PartialEq, Eq)]
pub enum Dup {
    Exists,
    New,
}

impl Dup {
    pub fn already_exists(&self) -> (r: bool)
        ensures
            r == (*self is Exists),
    {
        match self {
            Dup::Exists => true,
            _ => false,
        }
    }
}

/// The rows of the three keyspaces.
pub struct IndexView {
    pub main: Map<Seq<u8>, Seq<u8>>,
    pub aliases: Map<Seq<u8>, Seq<u8>>,
    pub filenames: Map<Seq<u8>, Seq<u8>>,
}

/// The key of `alias → hash`.
pub open spec fn alias_row(alias: Seq<char>) -> Seq<u8> {
    encode_utf8(alias)
}

/// The key of `"<alias>/id" → id`.
pub open spec fn id_row(alias: Seq<char>) -> Seq<u8> {
    encode_utf8(alias + id_suffix())
}

/// The key of `"<alias>/delete" → token`.
pub open spec fn token_row(alias: Seq<char>) -> Seq<u8> {
    encode_utf8(alias + delete_suffix())
}

/// The token that asking for an alias's delete token hands back, and the
/// alias rows after it, where `fresh` is the token that would be drawn.
pub open spec fn token_outcome(aliases: Map<Seq<u8>, Seq<u8>>, alias: Seq<char>, fresh: Seq<u8>) -> (
    Seq<u8>,
    Map<Seq<u8>, Seq<u8>>,
) {
    let k = token_row(alias);
    if aliases.contains_key(k) {
        (aliases[k], aliases)
    } else {
        (fresh, aliases.insert(k, fresh))
    }
}

/// The filename that an alias leads to, through its hash.
pub open spec fn resolve(ix: IndexView, alias: Seq<char>) -> Option<Seq<u8>> {
    match lookup(ix.aliases, alias_row(alias)) {
        Some(h) => lookup(ix.main, h),
        None => None,
    }
}

/// The outcome of storing content `h` under the candidate filename `f`:
/// whether it is new, the filename that holds it, and the rows after.
pub open spec fn dedup_outcome(ix: IndexView, h: Seq<u8>, f: Seq<u8>) -> (bool, Seq<u8>, IndexView) {
    if ix.main.contains_key(h) {
        (false, ix.main[h], ix)
    } else {
        (
            true,
            f,
            IndexView {
                main: ix.main.insert(h, f),
                aliases: ix.aliases,
                filenames: ix.filenames.insert(f, h),
            },
        )
    }
}

/// The rows after an alias is registered for `h` under the id `id`.
pub open spec fn with_alias(ix: IndexView, alias: Seq<char>, h: Seq<u8>, id: Seq<u8>) -> IndexView {
    IndexView {
        main: ix.main.insert(alias_row_key(h, id), alias_row(alias)),
        aliases: ix.aliases.insert(alias_row(alias), h).insert(id_row(alias), id),
        filenames: ix.filenames,
    }
}

/// `after` is `before` once the alias `a` of content `h` was registered
/// under some fresh id and the content stored under the candidate filename,
/// which no content held, with `new` and `f` what storing it answered.
pub open spec fn ingested(
    before: IndexView,
    after: IndexView,
    a: Seq<char>,
    h: Seq<u8>,
    candidate: Seq<u8>,
    new: bool,
    f: Seq<u8>,
) -> bool {
    &&& !before.filenames.contains_key(candidate)
    &&& exists|id: Seq<u8>|
        alias_is_fresh(before, a, h, id) && dedup_outcome(with_alias(before, a, h, id), h, candidate)
            == (new, f, after)
}

/// An alias can be registered for the first time under the id `id`.
pub open spec fn alias_is_fresh(ix: IndexView, alias: Seq<char>, h: Seq<u8>, id: Seq<u8>) -> bool {
    !ix.aliases.contains_key(alias_row(alias)) && !ix.main.contains_key(alias_row_key(h, id))
}

/// The token row of the alias holds this token.
pub open spec fn token_is(ix: IndexView, alias: Seq<char>, token: Seq<char>) -> bool {
    ix.aliases.contains_key(token_row(alias)) && ix.aliases[token_row(alias)] == encode_utf8(token)
}

/// The rows once an alias and its token, id and hash-to-alias rows are gone.
pub open spec fn without_alias(ix: IndexView, alias: Seq<char>) -> IndexView {
    let h = ix.aliases[alias_row(alias)];
    let id = ix.aliases[id_row(alias)];
    IndexView {
        main: ix.main.remove(alias_row_key(h, id)),
        aliases: ix.aliases.remove(token_row(alias)).remove(id_row(alias)).remove(alias_row(alias)),
        filenames: ix.filenames,
    }
}

/// The id and alias rows of an alias are both there.
pub open spec fn alias_rows_present(ix: IndexView, alias: Seq<char>) -> bool {
    ix.aliases.contains_key(id_row(alias)) && ix.aliases.contains_key(alias_row(alias))
}

/// The rows after a delete of `alias` with its token: its rows are gone,
/// and where no alias of its hash is left, the hash's filename row too.
pub open spec fn after_delete(ix: IndexView, alias: Seq<char>) -> IndexView {
    let ix1 = without_alias(ix, alias);
    let h = ix.aliases[alias_row(alias)];
    if unreferenced(ix1.main, h) {
        IndexView { main: ix1.main.remove(h), ..ix1 }
    } else {
        ix1
    }
}

/// The filename that a delete of `alias` leaves to be purged: that of its
/// hash, where no alias of the hash is left and the hash has a filename.
pub open spec fn purge_target(ix: IndexView, alias: Seq<char>) -> Option<Seq<u8>> {
    let ix1 = without_alias(ix, alias);
    let h = ix.aliases[alias_row(alias)];
    if unreferenced(ix1.main, h) && ix1.main.contains_key(h) {
        Some(ix1.main[h])
    } else {
        None
    }
}

/// No alias row of `h` is left.
pub open spec fn unreferenced(main: Map<Seq<u8>, Seq<u8>>, h: Seq<u8>) -> bool {
    keys_between(main, h.push(0u8), h.push(1u8)).is_empty()
}

/// The variant rows of `h`.
pub open spec fn variant_rows(main: Map<Seq<u8>, Seq<u8>>, h: Seq<u8>) -> Set<Seq<u8>> {
    keys_between(main, h.push(2u8), h.push(3u8))
}

/// Where the component that ends at `i` starts: just after the last `/`
/// before `i`.
pub open spec fn component_start(p: Seq<u8>, i: int) -> int
    decreases i,
{
    if i > 0 && i <= p.len() && p[i - 1] != 47u8 {
        component_start(p, i - 1)
    } else {
        i
    }
}

/// The last component of a path: what follows its last `/`.
pub open spec fn last_component(p: Seq<u8>) -> Seq<u8> {
    p.subrange(component_start(p, p.len() as int), p.len() as int)
}

/// The variant rows of `h` hold a row for the path `p`.
pub open spec fn path_recorded(main: Map<Seq<u8>, Seq<u8>>, h: Seq<u8>, p: String) -> bool {
    exists|k: Seq<u8>| #[trigger] variant_rows(main, h).contains(k) && main[k] == encode_utf8(p@)
}

/// Some path of `paths` is the text of `v`.
pub open spec fn returned(paths: Seq<String>, v: Seq<u8>) -> bool {
    exists|p: int| 0 <= p < paths.len() && encode_utf8((#[trigger] paths[p])@) == v
}

proof fn lemma_returned_push(paths: Seq<String>, s: String)
    ensures
        forall|v: Seq<u8>| returned(paths, v) ==> #[trigger] returned(paths.push(s), v),
        returned(paths.push(s), encode_utf8(s@)),
{
    assert forall|v: Seq<u8>| returned(paths, v) implies #[trigger] returned(paths.push(s), v) by {
        let p = choose|p: int| 0 <= p < paths.len() && encode_utf8((#[trigger] paths[p])@) == v;
        assert(paths.push(s)[p] == paths[p]);
    }
    assert(paths.push(s)[paths.len() as int] == s);
}

/// The rows once `filename → hash` and every variant row of that hash are
/// gone.
pub open spec fn purged(ix: IndexView, filename: Seq<u8>) -> IndexView {
    let h = ix.filenames[filename];
    IndexView {
        main: ix.main.remove_keys(variant_rows(ix.main, h)),
        aliases: ix.aliases,
        filenames: ix.filenames.remove(filename),
    }
}

/// The bytes of the last component of a path.
fn last_component_of(p: &[u8]) -> (r: Vec<u8>)
    ensures
        r@ == last_component(p@),
{
    let n = p.len();
    let mut i = n;
    while i > 0 && p[i - 1] != 47u8
        invariant
            i <= n,
            n == p@.len(),
            component_start(p@, n as int) == component_start(p@, i as int),
        decreases i,
    {
        i = i - 1;
    }
    let mut r: Vec<u8> = Vec::new();
    let mut j = i;
    while j < n
        invariant
            i <= j <= n,
            n == p@.len(),
            r@ == p@.subrange(i as int, j as int),
        decreases n - j,
    {
        r.push(p[j]);
        j = j + 1;
        assert(r@ =~= p@.subrange(i as int, j as int));
    }
    r
}

fn db_error(e: &sled::Error) -> (r: UploadError)
    ensures
        r is Db,
{
    UploadError::Db(db_error_text(e))
}

/// Manages the index and the content it points to.
pub struct UploadManager {
    format: Option<Format>,
    image_dir: String,
    db: sled::Db,
    main: sled::Tree,
    aliases: sled::Tree,
    filenames: sled::Tree,
}

impl UploadManager {
    /// The rows of the index.
    pub closed spec fn index(&self) -> IndexView {
        IndexView { main: rows(self.main), aliases: rows(self.aliases), filenames: rows(self.filenames) }
    }

    /// The directory that holds the originals and their variants.
    pub closed spec fn dir(&self) -> Seq<char> {
        self.image_dir@
    }

    /// The format that every upload is converted into, if one is set.
    pub closed spec fn target_format(&self) -> Option<Format> {
        self.format
    }

    /// Opens the index in `db`, keeping files under `image_dir`.
    pub fn new(db: sled::Db, image_dir: String, format: Option<Format>) -> (r: Result<
        UploadManager,
        UploadError,
    >)
        ensures
            r matches Ok(m) ==> m.dir() == image_dir@ && m.target_format() == format,
    {
        let main = db_default_tree(&db);
        let aliases = match db_open_tree(&db, "alias") {
            Ok(t) => t,
            Err(e) => return Err(db_error(&e)),
        };
        let filenames = match db_open_tree(&db, "filename") {
            Ok(t) => t,
            Err(e) => return Err(db_error(&e)),
        };
        Ok(UploadManager { format, image_dir, db, main, aliases, filenames })
    }

    /// The directory that holds the originals and their variants.
    pub fn image_dir(&self) -> (r: String)
        ensures
            r@ == self.dir(),
    {
        self.image_dir.clone()
    }

    /// The format that every upload is converted into, if one is set.
    pub fn format(&self) -> (r: Option<Format>)
        ensures
            r == self.target_format(),
    {
        self.format
    }
    /// Hands out the delete token of an alias: the one already bound to it,
    /// or a fresh 10-character alphanumeric token that is bound now.
    pub fn delete_token(&mut self, alias: &str) -> (r: Result<String, UploadError>)
        ensures
            final(self).dir() == old(self).dir(),
            final(self).target_format() == old(self).target_format(),
            final(self).index().main == old(self).index().main,
            final(self).index().filenames == old(self).index().filenames,
            r matches Ok(t) ==> token_outcome(old(self).index().aliases, alias@, encode_utf8(t@)) == (
                encode_utf8(t@),
                final(self).index().aliases,
            ),
            r matches Ok(t) ==> old(self).index().aliases.contains_key(token_row(alias@)) || (t@.len()
                == 10 && all_alnum(t@)),
            r matches Err(e) ==> e is Db || (e == UploadError::ParseString && final(self).index()
                == old(self).index() && old(self).index().aliases.contains_key(token_row(alias@))
                && !valid_utf8(old(self).index().aliases[token_row(alias@)])),
    {
        let fresh = random_alphanumeric(10);
        let key = delete_key(alias);
        match tree_insert_new(&mut self.aliases, key.as_str().as_bytes(), fresh.as_str().as_bytes()) {
            Ok(Ok(())) => Ok(fresh),
            Ok(Err(Some(current))) => match text_from_bytes(current) {
                Some(t) => Ok(t),
                None => Err(UploadError::ParseString),
            },
            Ok(Err(None)) => Err(UploadError::ParseString),
            Err(e) => Err(db_error(&e)),
        }
    }

    /// The filename of the content that an alias stands for.
    pub fn from_alias(&self, alias: &str) -> (r: Result<String, UploadError>)
        ensures
            r matches Ok(f) ==> resolve(self.index(), alias@) == Some(encode_utf8(f@)),
            resolve(self.index(), alias@) is None ==> r is Err,
            r matches Err(e) ==> e is Db || (e == UploadError::MissingAlias
                && !self.index().aliases.contains_key(alias_row(alias@))) || (e
                == UploadError::MissingFile && self.index().aliases.contains_key(alias_row(alias@))
                && resolve(self.index(), alias@) is None) || (e == UploadError::ParseString
                && (resolve(self.index(), alias@) matches Some(b) && !valid_utf8(b))),
    {
        let hash = match tree_get(&self.aliases, alias.as_bytes()) {
            Ok(Some(h)) => h,
            Ok(None) => return Err(UploadError::MissingAlias),
            Err(e) => return Err(db_error(&e)),
        };
        let name = match tree_get(&self.main, hash.as_slice()) {
            Ok(Some(f)) => f,
            Ok(None) => return Err(UploadError::MissingFile),
            Err(e) => return Err(db_error(&e)),
        };
        match text_from_bytes(name) {
            Some(f) => Ok(f),
            None => Err(UploadError::ParseString),
        }
    }

    /// Records a new alias of `hash` under a fresh id: `hash ‖ 0 ‖ id → alias`
    /// and `"<alias>/id" → id`. Ids that are already bound are skipped.
    fn store_alias(&mut self, hash: &Hash, alias: &str) -> (r: Result<(), UploadError>)
        ensures
            final(self).dir() == old(self).dir(),
            final(self).target_format() == old(self).target_format(),
            final(self).index().filenames == old(self).index().filenames,
            r is Ok ==> exists|id: Seq<u8>|
                !old(self).index().main.contains_key(alias_row_key(hash.inner@, id)) && final(self).index().main == old(self).index().main.insert(
                    alias_row_key(hash.inner@, id),
                    alias_row(alias@),
                ) && final(self).index().aliases == old(self).index().aliases.insert(
                    id_row(alias@),
                    id,
                ),
            r matches Err(e) ==> e is Db,
    {
        let ghost ix0 = self.index();
        let mut attempts: u64 = 0;
        while attempts < u64::MAX
            invariant
                self.index() == ix0,
                ix0 == old(self).index(),
                self.dir() == old(self).dir(),
                self.target_format() == old(self).target_format(),
            decreases u64::MAX - attempts,
        {
            let id = match db_generate_id(&self.db) {
                Ok(i) => i,
                Err(e) => return Err(db_error(&e)),
            };
            let id_text = decimal_text(id);
            let key = alias_key(hash.inner.as_slice(), id_text.as_str());
            match tree_insert_new(&mut self.main, key.as_slice(), alias.as_bytes()) {
                Ok(Ok(())) => {
                    let id_key = alias_id_key(alias);
                    return match tree_insert(
                        &mut self.aliases,
                        id_key.as_str().as_bytes(),
                        id_text.as_str().as_bytes(),
                    ) {
                        Ok(()) => {
                            proof {
                                let idb = encode_utf8(id_text@);
                                assert(id_key@ == alias@ + id_suffix());
                                assert(!old(self).index().main.contains_key(
                                    alias_row_key(hash.inner@, idb),
                                ));
                                assert(self.index().main == old(self).index().main.insert(
                                    alias_row_key(hash.inner@, idb),
                                    alias_row(alias@),
                                ));
                                assert(self.index().aliases == old(self).index().aliases.insert(
                                    id_row(alias@),
                                    idb,
                                ));
                            }
                            Ok(())
                        },
                        Err(e) => Err(db_error(&e)),
                    };
                },
                Ok(Err(_)) => {},
                Err(e) => return Err(db_error(&e)),
            }
            attempts = attempts + 1;
        }
        Err(UploadError::Db(String::from_str("no alias id is left")))
    }

    /// Binds `alias → hash` where the alias is still free; `Ok(Err(DuplicateAlias))`
    /// where it is taken.
    fn save_alias(&mut self, hash: &Hash, alias: &str) -> (r: Result<Result<(), UploadError>, UploadError>)
        ensures
            final(self).dir() == old(self).dir(),
            final(self).target_format() == old(self).target_format(),
            final(self).index().main == old(self).index().main,
            final(self).index().filenames == old(self).index().filenames,
            r matches Ok(Ok(())) ==> !old(self).index().aliases.contains_key(alias_row(alias@)) && final(self).index().aliases == old(self).index().aliases.insert(alias_row(alias@), hash.inner@),
            r matches Ok(Err(e)) ==> e == UploadError::DuplicateAlias && old(self).index().aliases.contains_key(alias_row(alias@)) && final(self).index() == old(self).index(),
            old(self).index().aliases.contains_key(alias_row(alias@)) ==> !(r matches Ok(Ok(()))),
            r matches Err(e) ==> e is Db,
    {
        match tree_insert_new(&mut self.aliases, alias.as_bytes(), hash.inner.as_slice()) {
            Ok(Ok(())) => Ok(Ok(())),
            Ok(Err(_)) => Ok(Err(UploadError::DuplicateAlias)),
            Err(e) => Err(db_error(&e)),
        }
    }

    /// Draws aliases `<10 or more alphanumerics>.<ext>`, one character longer
    /// after each one that is taken, and binds the first free one to `hash`.
    fn next_alias(&mut self, hash: &Hash, t: ImageType) -> (r: Result<String, UploadError>)
        ensures
            final(self).dir() == old(self).dir(),
            final(self).target_format() == old(self).target_format(),
            final(self).index().main == old(self).index().main,
            final(self).index().filenames == old(self).index().filenames,
            r matches Ok(a) ==> (exists|s: Seq<char>|
                a@ == s + seq!['.'] + ext_of(t) && s.len() >= 10 && #[trigger] all_alnum(s)),
            r matches Ok(a) ==> !old(self).index().aliases.contains_key(alias_row(a@)) && final(self).index().aliases == old(self).index().aliases.insert(alias_row(a@), hash.inner@),
            r matches Err(e) ==> e is Db || e == UploadError::DuplicateAlias,
            r == Err::<String, UploadError>(UploadError::DuplicateAlias) ==> final(self).index() == old(self).index(),
    {
        let ghost ix0 = self.index();
        let mut limit: usize = 10;
        while limit < usize::MAX
            invariant
                limit >= 10,
                self.index() == ix0,
                ix0 == old(self).index(),
                self.dir() == old(self).dir(),
                self.target_format() == old(self).target_format(),
            decreases usize::MAX - limit,
        {
            let s = random_alphanumeric(limit);
            let alias = file_name(s.as_str(), t);
            match self.save_alias(hash, alias.as_str()) {
                Ok(Ok(())) => {
                    assert(all_alnum(s@));
                    return Ok(alias);
                },
                Ok(Err(_)) => {},
                Err(e) => return Err(e),
            }
            limit = limit + 1;
        }
        Err(UploadError::DuplicateAlias)
    }

    /// Registers a new random alias for `hash`, with an extension that
    /// matches the content type.
    pub fn add_alias(&mut self, hash: &Hash, t: ImageType) -> (r: Result<String, UploadError>)
        ensures
            final(self).dir() == old(self).dir(),
            final(self).target_format() == old(self).target_format(),
            r matches Ok(a) ==> (exists|s: Seq<char>|
                a@ == s + seq!['.'] + ext_of(t) && s.len() >= 10 && #[trigger] all_alnum(s)),
            r matches Ok(a) ==> exists|id: Seq<u8>|
                alias_is_fresh(old(self).index(), a@, hash.inner@, id) && final(self).index()
                    == with_alias(old(self).index(), a@, hash.inner@, id),
            r matches Err(e) ==> e is Db || e == UploadError::DuplicateAlias,
            r == Err::<String, UploadError>(UploadError::DuplicateAlias) ==> final(self).index() == old(self).index(),
    {
        let ghost ix0 = self.index();
        let alias = match self.next_alias(hash, t) {
            Ok(a) => a,
            Err(e) => return Err(e),
        };
        let ghost ix1 = self.index();
        match self.store_alias(hash, alias.as_str()) {
            Ok(()) => {
                proof {
                    let id = choose|id: Seq<u8>|
                        !ix1.main.contains_key(alias_row_key(hash.inner@, id)) && self.index().main
                            == ix1.main.insert(alias_row_key(hash.inner@, id), alias_row(alias@))
                            && self.index().aliases == ix1.aliases.insert(id_row(alias@), id);
                    assert(self.index() == with_alias(ix0, alias@, hash.inner@, id));
                    assert(alias_is_fresh(ix0, alias@, hash.inner@, id));
                }
                Ok(alias)
            },
            Err(e) => Err(e),
        }
    }

    /// Registers an alias that the caller chose for `hash`; fails with
    /// `DuplicateAlias` where the alias is taken.
    pub fn add_existing_alias(&mut self, hash: &Hash, alias: &str) -> (r: Result<(), UploadError>)
        ensures
            final(self).dir() == old(self).dir(),
            final(self).target_format() == old(self).target_format(),
            r is Ok ==> exists|id: Seq<u8>|
                alias_is_fresh(old(self).index(), alias@, hash.inner@, id) && final(self).index()
                    == with_alias(old(self).index(), alias@, hash.inner@, id),
            old(self).index().aliases.contains_key(alias_row(alias@)) ==> r == Err::<(), UploadError>(
                UploadError::DuplicateAlias,
            ) || (r matches Err(e) && e is Db),
            r == Err::<(), UploadError>(UploadError::DuplicateAlias) ==> old(self).index().aliases.contains_key(alias_row(alias@)) && final(self).index() == old(self).index(),
            r matches Err(e) ==> e is Db || e == UploadError::DuplicateAlias,
    {
        let ghost ix0 = self.index();
        match self.save_alias(hash, alias) {
            Ok(Ok(())) => {},
            Ok(Err(e)) => return Err(e),
            Err(e) => return Err(e),
        }
        let ghost ix1 = self.index();
        match self.store_alias(hash, alias) {
            Ok(()) => {
                proof {
                    let id = choose|id: Seq<u8>|
                        !ix1.main.contains_key(alias_row_key(hash.inner@, id)) && self.index().main
                            == ix1.main.insert(alias_row_key(hash.inner@, id), alias_row(alias@))
                            && self.index().aliases == ix1.aliases.insert(id_row(alias@), id);
                    assert(self.index() == with_alias(ix0, alias@, hash.inner@, id));
                    assert(alias_is_fresh(ix0, alias@, hash.inner@, id));
                }
                Ok(())
            },
            Err(e) => Err(e),
        }
    }

    /// Binds `hash → filename` where `hash` is new, and then
    /// `filename → hash`; where `hash` is already stored, changes nothing and
    /// returns the filename that holds it.
    pub fn check_duplicate(&mut self, hash: &Hash, filename: &str) -> (r: Result<
        (Dup, String),
        UploadError,
    >)
        ensures
            final(self).dir() == old(self).dir(),
            final(self).target_format() == old(self).target_format(),
            r matches Ok((d, name)) ==> dedup_outcome(
                old(self).index(),
                hash.inner@,
                encode_utf8(filename@),
            ) == (d is New, encode_utf8(name@), final(self).index()),
            r matches Err(e) ==> e is Db || (e == UploadError::ParseString && final(self).index()
                == old(self).index() && old(self).index().main.contains_key(hash.inner@)
                && !valid_utf8(old(self).index().main[hash.inner@])),
    {
        match tree_insert_new(&mut self.main, hash.inner.as_slice(), filename.as_bytes()) {
            Ok(Ok(())) => match tree_insert(&mut self.filenames, filename.as_bytes(), hash.inner.as_slice()) {
                Ok(()) => Ok((Dup::New, String::from_str(filename))),
                Err(e) => Err(db_error(&e)),
            },
            Ok(Err(Some(current))) => match text_from_bytes(current) {
                Some(name) => Ok((Dup::Exists, name)),
                None => Err(UploadError::ParseString),
            },
            Ok(Err(None)) => Err(UploadError::ParseString),
            Err(e) => Err(db_error(&e)),
        }
    }
    /// Deletes an alias, given its delete token.
    ///
    /// A missing token row is `MissingAlias`, a different token is
    /// `InvalidToken`, a missing id or alias row is `MissingAlias`; in each
    /// case nothing changes. Otherwise the token, id and alias rows and the
    /// hash's alias row go in one transaction. Where no other alias of the
    /// hash is left, the hash's filename row goes too and the filename is
    /// returned, so that the file and its variants can be purged; `Ok(None)`
    /// where other aliases remain, or the hash had no filename row.
    pub fn delete(&mut self, alias: &str, token: &str) -> (r: Result<Option<String>, UploadError>)
        ensures
            final(self).dir() == old(self).dir(),
            final(self).target_format() == old(self).target_format(),
            !token_is(old(self).index(), alias@, token@) || !alias_rows_present(old(self).index(), alias@)
                ==> r is Err && final(self).index() == old(self).index(),
            !old(self).index().aliases.contains_key(token_row(alias@)) ==> r == Err::<
                Option<String>,
                UploadError,
            >(UploadError::MissingAlias) || (r matches Err(e) && e is Db),
            old(self).index().aliases.contains_key(token_row(alias@)) && !token_is(old(self).index(), alias@, token@)
                ==> r == Err::<Option<String>, UploadError>(UploadError::InvalidToken) || (r matches Err(
                e,
            ) && e is Db),
            token_is(old(self).index(), alias@, token@) && !alias_rows_present(old(self).index(), alias@)
                ==> r == Err::<Option<String>, UploadError>(UploadError::MissingAlias) || (r matches Err(
                e,
            ) && e is Db),
            token_is(old(self).index(), alias@, token@) && alias_rows_present(old(self).index(), alias@)
                ==> r is Ok || (r matches Err(e) && e is Db) || (r == Err::<Option<String>, UploadError>(
                UploadError::ParseString,
            ) && final(self).index() == after_delete(old(self).index(), alias@) && (purge_target(
                old(self).index(),
                alias@,
            ) matches Some(b) && !valid_utf8(b))),
            r == Err::<Option<String>, UploadError>(UploadError::MissingAlias) ==> !old(self).index().aliases.contains_key(
                token_row(alias@),
            ) || (token_is(old(self).index(), alias@, token@) && !alias_rows_present(old(self).index(), alias@)),
            r == Err::<Option<String>, UploadError>(UploadError::InvalidToken) ==> old(self).index().aliases.contains_key(
                token_row(alias@),
            ) && !token_is(old(self).index(), alias@, token@),
            r matches Ok(o) ==> token_is(old(self).index(), alias@, token@) && alias_rows_present(
                old(self).index(),
                alias@,
            ) && final(self).index() == after_delete(old(self).index(), alias@) && match o {
                Some(f) => purge_target(old(self).index(), alias@) == Some(encode_utf8(f@)),
                None => purge_target(old(self).index(), alias@) is None,
            },
            r matches Err(e) ==> e is Db || e is ParseString || e == UploadError::MissingAlias || e
                == UploadError::InvalidToken,
    {
        let ghost ix0 = self.index();
        let token_key = delete_key(alias);
        let id_key = alias_id_key(alias);
        let stored = match tree_get(&self.aliases, token_key.as_str().as_bytes()) {
            Ok(Some(t)) => t,
            Ok(None) => return Err(UploadError::MissingAlias),
            Err(e) => return Err(db_error(&e)),
        };
        if !bytes_eq(stored.as_slice(), token.as_bytes()) {
            return Err(UploadError::InvalidToken);
        }
        let id = match tree_get(&self.aliases, id_key.as_str().as_bytes()) {
            Ok(Some(i)) => i,
            Ok(None) => return Err(UploadError::MissingAlias),
            Err(e) => return Err(db_error(&e)),
        };
        let hash = match tree_get(&self.aliases, alias.as_bytes()) {
            Ok(Some(h)) => h,
            Ok(None) => return Err(UploadError::MissingAlias),
            Err(e) => return Err(db_error(&e)),
        };
        let row = alias_key_bytes(hash.as_slice(), id.as_slice());
        match remove_rows_together(
            &mut self.aliases,
            &mut self.main,
            token_key.as_str().as_bytes(),
            id_key.as_str().as_bytes(),
            alias.as_bytes(),
            row.as_slice(),
        ) {
            Ok(()) => {},
            Err(Some(e)) => return Err(db_error(&e)),
            Err(None) => return Err(UploadError::Db(String::from_str("transaction aborted"))),
        }
        assert(self.index() == without_alias(ix0, alias@));
        let (start, end) = alias_key_bounds(hash.as_slice());
        let any = match tree_any_between(&self.main, start.as_slice(), end.as_slice()) {
            Ok(b) => b,
            Err(e) => return Err(db_error(&e)),
        };
        if any {
            return Ok(None);
        }
        let ghost ix1 = self.index();
        let name = match tree_remove(&mut self.main, hash.as_slice()) {
            Ok(Some(f)) => f,
            Ok(None) => {
                assert(ix1.main.remove(hash@) =~= ix1.main);
                return Ok(None);
            },
            Err(e) => return Err(db_error(&e)),
        };
        assert(self.index() == (IndexView { main: ix1.main.remove(hash@), ..ix1 }));
        match text_from_bytes(name) {
            Some(f) => Ok(Some(f)),
            None => Err(UploadError::ParseString),
        }
    }

    /// Removes the rows of content whose last alias is gone: `filename →
    /// hash`, and every variant row of the hash. Returns the paths of the
    /// variant files that were recorded, so that they can be removed too.
    pub fn cleanup_files(&mut self, filename: &str) -> (r: Result<Vec<String>, UploadError>)
        ensures
            final(self).dir() == old(self).dir(),
            final(self).target_format() == old(self).target_format(),
            r is Ok ==> old(self).index().filenames.contains_key(encode_utf8(filename@)) && final(self).index()
                == purged(old(self).index(), encode_utf8(filename@)),
            !old(self).index().filenames.contains_key(encode_utf8(filename@)) ==> r is Err,
            r matches Ok(paths) ==> forall|i: int|
                0 <= i < paths@.len() ==> path_recorded(
                    old(self).index().main,
                    old(self).index().filenames[encode_utf8(filename@)],
                    #[trigger] paths@[i],
                ),
            r matches Ok(paths) ==> forall|k: Seq<u8>|
                #[trigger] variant_rows(
                    old(self).index().main,
                    old(self).index().filenames[encode_utf8(filename@)],
                ).contains(k) && valid_utf8(old(self).index().main[k]) ==> returned(
                    paths@,
                    old(self).index().main[k],
                ),
            r matches Err(e) ==> e is Db || (e is MissingFile && !old(self).index().filenames.contains_key(
                encode_utf8(filename@),
            )),
    {
        let ghost ix0 = self.index();
        let hash = match tree_remove(&mut self.filenames, filename.as_bytes()) {
            Ok(Some(h)) => h,
            Ok(None) => return Err(UploadError::MissingFile),
            Err(e) => return Err(db_error(&e)),
        };
        assert(hash@ == ix0.filenames[encode_utf8(filename@)]);
        let ghost targets = variant_rows(ix0.main, hash@);
        let (start, end) = variant_key_bounds(hash.as_slice());
        let keys = match tree_keys_between(&self.main, start.as_slice(), end.as_slice()) {
            Ok(k) => k,
            Err(e) => return Err(db_error(&e)),
        };
        let mut paths: Vec<String> = Vec::new();
        let mut i: usize = 0;
        while i < keys.len()
            invariant
                i <= keys@.len(),
                targets == variant_rows(ix0.main, hash@),
                forall|j: int| 0 <= j < keys@.len() ==> targets.contains(#[trigger] keys@[j]@),
                self.index().aliases == ix0.aliases,
                self.index().filenames == ix0.filenames.remove(filename.spec_bytes()),
                self.index().main == ix0.main.remove_keys(
                    Set::new(|k: Seq<u8>| exists|j: int| 0 <= j < i && (#[trigger] keys@[j])@ == k),
                ),
                self.dir() == old(self).dir(),
                self.target_format() == old(self).target_format(),
                forall|p: int|
                    0 <= p < paths@.len() ==> path_recorded(ix0.main, hash@, #[trigger] paths@[p]),
                forall|j: int|
                    0 <= j < i && valid_utf8(ix0.main[(#[trigger] keys@[j])@]) ==> returned(
                        paths@,
                        ix0.main[keys@[j]@],
                    ),
            decreases keys@.len() - i,
        {
            let ghost before = self.index().main;
            let ghost k = keys@[i as int]@;
            match tree_remove(&mut self.main, keys[i].as_slice()) {
                Ok(Some(p)) => {
                    assert(before.contains_key(k));
                    assert(ix0.main[k] == p@);
                    match text_from_bytes(p) {
                        Some(s) => {
                            let ghost ps = paths@;
                            paths.push(s);
                            proof {
                                lemma_returned_push(ps, s);
                                assert(paths@[ps.len() as int] == s);
                                assert(returned(paths@, ix0.main[k]));
                            }
                            assert(targets.contains(k));
                            assert(path_recorded(ix0.main, hash@, s));
                            assert(forall|p: int|
                                0 <= p < paths@.len() ==> path_recorded(ix0.main, hash@, #[trigger] paths@[p]));
                        },
                        None => {},
                    }
                },
                Ok(None) => {
                    assert(targets.contains(k));
                    assert(!before.contains_key(k));
                    assert(exists|j: int| 0 <= j < i && (#[trigger] keys@[j])@ == k);
                },
                Err(e) => return Err(db_error(&e)),
            }
            i = i + 1;
            assert(self.index().main =~= ix0.main.remove_keys(
                Set::new(|k: Seq<u8>| exists|j: int| 0 <= j < i && (#[trigger] keys@[j])@ == k),
            ));
        }
        assert(Set::new(|k: Seq<u8>| exists|j: int| 0 <= j < keys@.len() && (#[trigger] keys@[j])@ == k) =~= targets);
        assert(self.index() == purged(ix0, encode_utf8(filename@)));
        assert forall|k: Seq<u8>|
            #[trigger] variant_rows(ix0.main, ix0.filenames[encode_utf8(filename@)]).contains(k)
                && valid_utf8(ix0.main[k]) implies returned(paths@, ix0.main[k]) by {
            assert(targets.contains(k));
            let j = choose|j: int| 0 <= j < keys@.len() && (#[trigger] keys@[j])@ == k;
            assert(valid_utf8(ix0.main[keys@[j]@]));
        }
        Ok(paths)
    }

    /// Records a variant of stored content: `hash ‖ 2 ‖ path → path`, where
    /// the hash is the one that the path's last component, a filename,
    /// stands for.
    pub fn store_variant(&mut self, path: &str) -> (r: Result<(), UploadError>)
        ensures
            final(self).dir() == old(self).dir(),
            final(self).target_format() == old(self).target_format(),
            final(self).index().aliases == old(self).index().aliases,
            final(self).index().filenames == old(self).index().filenames,
            r is Ok ==> ({
                let f = last_component(path.spec_bytes());
                &&& old(self).index().filenames.contains_key(f)
                &&& final(self).index().main == old(self).index().main.insert(
                    variant_row_key(old(self).index().filenames[f], path.spec_bytes()),
                    path.spec_bytes(),
                )
            }),
            !old(self).index().filenames.contains_key(last_component(path.spec_bytes())) ==> r is Err,
            r matches Err(e) ==> e is Db || (e == UploadError::MissingFilename && final(self).index()
                == old(self).index() && !old(self).index().filenames.contains_key(
                last_component(path.spec_bytes()),
            )),
    {
        let bytes = path.as_bytes();
        let name = last_component_of(bytes);
        let hash = match tree_get(&self.filenames, name.as_slice()) {
            Ok(Some(h)) => h,
            Ok(None) => return Err(UploadError::MissingFilename),
            Err(e) => return Err(db_error(&e)),
        };
        let key = variant_key(hash.as_slice(), path);
        match tree_insert(&mut self.main, key.as_slice(), bytes) {
            Ok(()) => Ok(()),
            Err(e) => Err(db_error(&e)),
        }
    }

    /// Indexes uploaded canonical bytes of content type `t`: fails with
    /// `FileExists` where the candidate filename is already bound; else
    /// registers a fresh alias for their hash, then stores the content under
    /// `candidate` unless it is stored already. Returns the alias, whether
    /// the content is new, and the filename that holds it; the caller moves
    /// the bytes into place only when they are new.
    pub fn upload(&mut self, bytes: &[u8], t: ImageType, candidate: &str) -> (r: Result<
        (String, Dup, String),
        UploadError,
    >)
        ensures
            final(self).dir() == old(self).dir(),
            final(self).target_format() == old(self).target_format(),
            r matches Ok((a, d, f)) ==> (exists|s: Seq<char>|
                a@ == s + seq!['.'] + ext_of(t) && s.len() >= 10 && #[trigger] all_alnum(s)),
            r matches Ok((a, d, f)) ==> ingested(
                old(self).index(),
                final(self).index(),
                a@,
                sha256_of(bytes@),
                encode_utf8(candidate@),
                d is New,
                encode_utf8(f@),
            ),
            old(self).index().filenames.contains_key(encode_utf8(candidate@)) ==> r == Err::<
                (String, Dup, String),
                UploadError,
            >(UploadError::FileExists) || (r matches Err(e) && e is Db),
            r == Err::<(String, Dup, String), UploadError>(UploadError::FileExists) ==> old(self).index().filenames.contains_key(
                encode_utf8(candidate@),
            ) && final(self).index() == old(self).index(),
            r == Err::<(String, Dup, String), UploadError>(UploadError::DuplicateAlias) ==> final(self).index() == old(self).index(),
            r == Err::<(String, Dup, String), UploadError>(UploadError::ParseString) ==> old(self).index().main.contains_key(
                sha256_of(bytes@),
            ) && !valid_utf8(old(self).index().main[sha256_of(bytes@)]),
            r matches Err(e) ==> e is Db || e is ParseString || e == UploadError::DuplicateAlias || e
                == UploadError::FileExists,
    {
        match tree_get(&self.filenames, candidate.as_bytes()) {
            Ok(Some(_)) => return Err(UploadError::FileExists),
            Ok(None) => {},
            Err(e) => return Err(db_error(&e)),
        }
        let hash = hash_content(bytes);
        let ghost ix0 = self.index();
        let alias = match self.add_alias(&hash, t) {
            Ok(a) => a,
            Err(e) => return Err(e),
        };
        let ghost ix1 = self.index();
        let ghost id = choose|id: Seq<u8>|
            alias_is_fresh(ix0, alias@, hash.inner@, id) && ix1 == with_alias(ix0, alias@, hash.inner@, id);
        assert(alias_row_key(hash.inner@, id).len() != hash.inner@.len());
        assert(ix1.main.contains_key(hash.inner@) == ix0.main.contains_key(hash.inner@));
        assert(ix1.main[hash.inner@] == ix0.main[hash.inner@]);
        match self.check_duplicate(&hash, candidate) {
            Ok((d, name)) => {
                assert(ingested(ix0, self.index(), alias@, hash.inner@, encode_utf8(candidate@), d is New, encode_utf8(name@)));
                Ok((alias, d, name))
            },
            Err(e) => Err(e),
        }
    }

    /// Indexes imported canonical bytes under the alias the caller chose:
    /// fails with `DuplicateAlias` where the alias is taken, and with
    /// `FileExists` where the candidate filename is bound; else stores the
    /// content under `candidate` unless it is stored already. Returns
    /// whether the content is new and the filename that holds it.
    pub fn import(&mut self, alias: &str, bytes: &[u8], candidate: &str) -> (r: Result<
        (Dup, String),
        UploadError,
    >)
        ensures
            final(self).dir() == old(self).dir(),
            final(self).target_format() == old(self).target_format(),
            r matches Ok((d, f)) ==> ingested(
                old(self).index(),
                final(self).index(),
                alias@,
                sha256_of(bytes@),
                encode_utf8(candidate@),
                d is New,
                encode_utf8(f@),
            ),
            old(self).index().aliases.contains_key(alias_row(alias@)) ==> r == Err::<(Dup, String), UploadError>(
                UploadError::DuplicateAlias,
            ) || (r matches Err(e) && e is Db),
            r == Err::<(Dup, String), UploadError>(UploadError::DuplicateAlias) ==> old(self).index().aliases.contains_key(
                alias_row(alias@),
            ) && final(self).index() == old(self).index(),
            !old(self).index().aliases.contains_key(alias_row(alias@)) && old(self).index().filenames.contains_key(
                encode_utf8(candidate@),
            ) ==> r == Err::<(Dup, String), UploadError>(UploadError::FileExists) || (r matches Err(e)
                && e is Db),
            r == Err::<(Dup, String), UploadError>(UploadError::FileExists) ==> old(self).index().filenames.contains_key(
                encode_utf8(candidate@),
            ) && final(self).index() == old(self).index(),
            r == Err::<(Dup, String), UploadError>(UploadError::ParseString) ==> old(self).index().main.contains_key(
                sha256_of(bytes@),
            ) && !valid_utf8(old(self).index().main[sha256_of(bytes@)]),
            r matches Err(e) ==> e is Db || e is ParseString || e == UploadError::DuplicateAlias || e
                == UploadError::FileExists,
    {
        match tree_get(&self.aliases, alias.as_bytes()) {
            Ok(Some(_)) => return Err(UploadError::DuplicateAlias),
            Ok(None) => {},
            Err(e) => return Err(db_error(&e)),
        }
        match tree_get(&self.filenames, candidate.as_bytes()) {
            Ok(Some(_)) => return Err(UploadError::FileExists),
            Ok(None) => {},
            Err(e) => return Err(db_error(&e)),
        }
        let hash = hash_content(bytes);
        let ghost ix0 = self.index();
        match self.add_existing_alias(&hash, alias) {
            Ok(()) => {},
            Err(e) => return Err(e),
        }
        let ghost ix1 = self.index();
        let ghost id = choose|id: Seq<u8>|
            alias_is_fresh(ix0, alias@, hash.inner@, id) && ix1 == with_alias(ix0, alias@, hash.inner@, id);
        assert(alias_row_key(hash.inner@, id).len() != hash.inner@.len());
        assert(ix1.main.contains_key(hash.inner@) == ix0.main.contains_key(hash.inner@));
        assert(ix1.main[hash.inner@] == ix0.main[hash.inner@]);
        match self.check_duplicate(&hash, candidate) {
            Ok((d, name)) => {
                assert(ingested(ix0, self.index(), alias@, hash.inner@, encode_utf8(candidate@), d is New, encode_utf8(name@)));
                Ok((d, name))
            },
            Err(e) => Err(e),
        }
    }
}

/// A random filename `<len alphanumerics>.<ext>`: a candidate for the
/// on-disk name of new content.
pub fn next_file_name(len: usize, t: ImageType) -> (r: String)
    ensures
        exists|s: Seq<char>| r@ == s + seq!['.'] + ext_of(t) && s.len() == len && #[trigger] all_alnum(s),
{
    let s = random_alphanumeric(len);
    let r = file_name(s.as_str(), t);
    assert(all_alnum(s@));
    r
}

/// A random name `<10 alphanumerics>.tmp` for a transient ingest buffer.
pub fn tmp_file_name() -> (r: String)
    ensures
        exists|s: Seq<char>| r@ == s + seq!['.', 't', 'm', 'p'] && s.len() == 10 && #[trigger] all_alnum(s),
{
    let mut r = random_alphanumeric(10);
    let ghost s = r@;
    proof {
        reveal_strlit(".tmp");
    }
    r.append(".tmp");
    assert(r@ =~= s + seq!['.', 't', 'm', 'p']);
    r
}

#[verifier::external_type_specification]
#[verifier::external_body]
pub struct ExPathBuf(std::path::PathBuf);

/// Relies on `Path::to_str`: the path's text where it is valid Unicode.
#[verifier::external_body]
fn path_text(p: &std::path::PathBuf) -> (r: Option<String>) {
    p.to_str().map(|s| s.to_string())
}

/// The text of a path; `Path` where it is not valid Unicode.
pub fn ptos(p: &std::path::PathBuf) -> (r: Result<String, UploadError>)
    ensures
        r matches Err(e) ==> e == UploadError::Path,
{
    match path_text(p) {
        Some(s) => Ok(s),
        None => Err(UploadError::Path),
    }
}

} // verus!
