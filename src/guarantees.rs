//! What the index guarantees across operations, proved over the rows that
//! each operation's contract describes.
use vstd::prelude::*;
use vstd::utf8::encode_utf8;
use crate::keys::{alias_row_key, id_suffix, in_range, lex_lt, variant_row_key};
use crate::store::keys_between;
use crate::upload_manager::{
    alias_is_fresh, alias_row, ingested, dedup_outcome, id_row, purged, resolve, token_outcome, token_row,
    token_is, unreferenced, variant_rows, with_alias, without_alias, IndexView,
};

verus! {

/// The tokens that successive requests for an alias's delete token hand
/// back, where `fresh[i]` is the token the `i`-th request would draw, and
/// the alias rows after them.
pub open spec fn token_requests(
    aliases: Map<Seq<u8>, Seq<u8>>,
    alias: Seq<char>,
    fresh: Seq<Seq<u8>>,
) -> (Seq<Seq<u8>>, Map<Seq<u8>, Seq<u8>>)
    decreases fresh.len(),
{
    if fresh.len() == 0 {
        (Seq::empty(), aliases)
    } else {
        let (tokens, rows) = token_requests(aliases, alias, fresh.drop_last());
        let (t, rows2) = token_outcome(rows, alias, fresh.last());
        (tokens.push(t), rows2)
    }
}

/// However many times an alias's delete token is asked for, every request
/// hands back the token of the first one.
pub proof fn lemma_delete_token_repeats(
    aliases: Map<Seq<u8>, Seq<u8>>,
    alias: Seq<char>,
    fresh: Seq<Seq<u8>>,
)
    requires
        fresh.len() > 0,
    ensures
        ({
            let (tokens, rows) = token_requests(aliases, alias, fresh);
            &&& tokens.len() == fresh.len()
            &&& forall|i: int| 0 <= i < tokens.len() ==> #[trigger] tokens[i] == tokens[0]
            &&& rows.contains_key(token_row(alias)) && rows[token_row(alias)] == tokens[0]
        }),
    decreases fresh.len(),
{
    let k = token_row(alias);
    let (all, rows_all) = token_requests(aliases, alias, fresh);
    let (tokens, rows) = token_requests(aliases, alias, fresh.drop_last());
    let (t, rows2) = token_outcome(rows, alias, fresh.last());
    assert(all == tokens.push(t) && rows_all == rows2);
    if fresh.len() > 1 {
        lemma_delete_token_repeats(aliases, alias, fresh.drop_last());
        assert(rows.contains_key(k) && rows[k] == tokens[0]);
        assert(t == tokens[0] && rows2 == rows);
        assert forall|i: int| 0 <= i < all.len() implies #[trigger] all[i] == all[0] by {
            if i < tokens.len() {
                assert(all[i] == tokens[i]);
            }
        }
    } else {
        assert(fresh.drop_last().len() == 0);
        assert(tokens.len() == 0);
        assert(all[0] == t);
    }
}

/// A wrong delete token leaves the index as it is (the delete itself fails).
pub proof fn lemma_wrong_token_rejected(ix: IndexView, alias: Seq<char>, token: Seq<char>, stored: Seq<u8>)
    requires
        ix.aliases.contains_key(token_row(alias)),
        ix.aliases[token_row(alias)] == stored,
        stored != encode_utf8(token),
    ensures
        !token_is(ix, alias, token),
{
}

/// `encode_utf8` tells different texts apart.
pub proof fn lemma_encode_injective(a: Seq<char>, b: Seq<char>)
    ensures
        (encode_utf8(a) == encode_utf8(b)) == (a == b),
{
    vstd::utf8::encode_utf8_decode_utf8(a);
    vstd::utf8::encode_utf8_decode_utf8(b);
}

/// The text holds no `/`.
pub open spec fn no_slash(a: Seq<char>) -> bool {
    forall|i: int| 0 <= i < a.len() ==> a[i] != '/'
}

/// The row keys of an alias without `/` differ from the id row of another
/// alias.
proof fn lemma_alias_not_id_row(a: Seq<char>, b: Seq<char>)
    requires
        no_slash(a),
    ensures
        alias_row(a) != id_row(b),
        alias_row(a) != id_row(a),
{
    lemma_encode_injective(a, b + id_suffix());
    lemma_encode_injective(a, a + id_suffix());
    if a == b + id_suffix() {
        assert(a[b.len() as int] == '/');
    }
    assert((a + id_suffix()).len() != a.len());
}

/// An alias stands for a hash of 32 bytes, whose filename row maps back to
/// the hash.
pub open spec fn indexed(ix: IndexView, a: Seq<char>) -> bool {
    &&& ix.aliases.contains_key(alias_row(a))
    &&& ix.aliases[alias_row(a)].len() == 32
    &&& ix.main.contains_key(ix.aliases[alias_row(a)])
    &&& ix.filenames.contains_key(ix.main[ix.aliases[alias_row(a)]])
    &&& ix.filenames[ix.main[ix.aliases[alias_row(a)]]] == ix.aliases[alias_row(a)]
}

/// Each stored hash has one filename, whose row maps back to the hash.
pub open spec fn files_consistent(ix: IndexView) -> bool {
    forall|h: Seq<u8>|
        #[trigger] ix.main.contains_key(h) && h.len() == 32 ==> ix.filenames.contains_key(ix.main[h])
            && ix.filenames[ix.main[h]] == h
}

/// The stored hashes are consistent with their filenames, and every alias
/// of a set is indexed and holds no `/`.
pub open spec fn all_indexed(ix: IndexView, aliases: Set<Seq<char>>) -> bool {
    &&& files_consistent(ix)
    &&& forall|a: Seq<char>| #[trigger] aliases.contains(a) ==> no_slash(a) && indexed(ix, a)
}

/// The rows after one upload of content `h`: its alias is registered under
/// `id`, then the content is stored under the candidate filename `f` unless
/// it is stored already.
pub open spec fn after_upload(ix: IndexView, a: Seq<char>, h: Seq<u8>, id: Seq<u8>, f: Seq<u8>) -> IndexView {
    dedup_outcome(with_alias(ix, a, h, id), h, f).2
}

/// The hash that each alias of a set stands for.
pub open spec fn hashes_of(ix: IndexView, aliases: Set<Seq<char>>) -> Set<Seq<u8>> {
    aliases.map(|a: Seq<char>| ix.aliases[alias_row(a)])
}

/// An upload keeps every alias indexed and indexes the new one: each alias
/// leads to exactly one hash and that hash to exactly one filename, whose
/// row leads back to the hash. `f` is a filename that no content holds yet,
/// as the filename search guarantees.
pub proof fn lemma_upload_keeps_index(
    ix: IndexView,
    uploaded: Set<Seq<char>>,
    a: Seq<char>,
    h: Seq<u8>,
    id: Seq<u8>,
    f: Seq<u8>,
)
    requires
        all_indexed(ix, uploaded),
        no_slash(a),
        h.len() == 32,
        alias_is_fresh(ix, a, h, id),
        !ix.filenames.contains_key(f),
    ensures
        all_indexed(after_upload(ix, a, h, id, f), uploaded.insert(a)),
{
    let ix1 = with_alias(ix, a, h, id);
    let ix2 = after_upload(ix, a, h, id, f);
    lemma_alias_not_id_row(a, a);
    assert(alias_row_key(h, id).len() != 32);
    assert(ix1.main.contains_key(h) == ix.main.contains_key(h));
    assert forall|g: Seq<u8>| #[trigger] ix2.main.contains_key(g) && g.len() == 32 implies ix2.filenames.contains_key(
        ix2.main[g],
    ) && ix2.filenames[ix2.main[g]] == g by {
        if g != h || ix.main.contains_key(h) {
            assert(ix.main.contains_key(g));
            assert(ix2.main[g] == ix.main[g]);
            assert(ix.filenames.contains_key(ix.main[g]));
            assert(ix2.filenames[ix2.main[g]] == g);
        }
    }
    assert forall|b: Seq<char>| #[trigger] uploaded.insert(a).contains(b) implies no_slash(b)
        && indexed(ix2, b) by {
        if b != a {
            assert(uploaded.contains(b));
            lemma_alias_not_id_row(b, a);
            lemma_encode_injective(a, b);
            let hb = ix.aliases[alias_row(b)];
            assert(ix1.aliases[alias_row(b)] == hb);
            assert(ix2.aliases[alias_row(b)] == hb);
            assert(ix2.main.contains_key(hb));
        } else {
            assert(ix2.aliases[alias_row(a)] == h);
            assert(ix2.main.contains_key(h));
        }
    }
}

/// What `UploadManager::upload` and `UploadManager::import` report keeps
/// every alias indexed and indexes the new one.
pub proof fn lemma_ingest_keeps_index(
    before: IndexView,
    after: IndexView,
    uploaded: Set<Seq<char>>,
    a: Seq<char>,
    h: Seq<u8>,
    candidate: Seq<u8>,
    new: bool,
    f: Seq<u8>,
)
    requires
        all_indexed(before, uploaded),
        ingested(before, after, a, h, candidate, new, f),
        no_slash(a),
        h.len() == 32,
    ensures
        all_indexed(after, uploaded.insert(a)),
        resolve(after, a) == Some(f),
{
    let id = choose|id: Seq<u8>|
        alias_is_fresh(before, a, h, id) && dedup_outcome(with_alias(before, a, h, id), h, candidate)
            == (new, f, after);
    lemma_upload_keeps_index(before, uploaded, a, h, id, candidate);
    lemma_alias_not_id_row(a, a);
}

/// Two ingests of the same content, as `UploadManager::upload` reports
/// them: the aliases differ, the second stores nothing new and reports the
/// first filename, and both aliases lead to it.
pub proof fn lemma_ingest_same_content_twice(
    ix0: IndexView,
    ix1: IndexView,
    ix2: IndexView,
    a1: Seq<char>,
    a2: Seq<char>,
    h: Seq<u8>,
    c1: Seq<u8>,
    c2: Seq<u8>,
    new1: bool,
    new2: bool,
    f1: Seq<u8>,
    f2: Seq<u8>,
)
    requires
        no_slash(a1),
        no_slash(a2),
        ingested(ix0, ix1, a1, h, c1, new1, f1),
        ingested(ix1, ix2, a2, h, c2, new2, f2),
    ensures
        a1 != a2,
        !new2,
        f2 == f1,
        resolve(ix2, a1) == Some(f1),
        resolve(ix2, a2) == Some(f1),
        ix2.filenames == ix1.filenames,
{
    let id1 = choose|id: Seq<u8>|
        alias_is_fresh(ix0, a1, h, id) && dedup_outcome(with_alias(ix0, a1, h, id), h, c1) == (
            new1,
            f1,
            ix1,
        );
    let id2 = choose|id: Seq<u8>|
        alias_is_fresh(ix1, a2, h, id) && dedup_outcome(with_alias(ix1, a2, h, id), h, c2) == (
            new2,
            f2,
            ix2,
        );
    lemma_same_content_one_file(ix0, a1, a2, h, id1, id2, c1, c2);
    lemma_alias_not_id_row(a1, a1);
    assert(ix1.main.contains_key(h) && ix1.main[h] == f1);
    assert(alias_row_key(h, id2).len() != h.len());
    assert(ix2.main[h] == f1);
}

/// A run of ingests from `states[0]`: the `i`-th ingest, as
/// `UploadManager::upload` or `UploadManager::import` report it, took
/// `states[i]` to `states[i + 1]` with alias `aliases[i]` (no `/`) for
/// content with the 32-byte hash `hashes[i]`.
pub open spec fn ingest_run(
    states: Seq<IndexView>,
    aliases: Seq<Seq<char>>,
    hashes: Seq<Seq<u8>>,
    candidates: Seq<Seq<u8>>,
    news: Seq<bool>,
    files: Seq<Seq<u8>>,
) -> bool {
    &&& states.len() == aliases.len() + 1
    &&& hashes.len() == aliases.len()
    &&& candidates.len() == aliases.len()
    &&& news.len() == aliases.len()
    &&& files.len() == aliases.len()
    &&& forall|i: int|
        0 <= i < aliases.len() ==> #[trigger] run_step(states, aliases, hashes, candidates, news, files, i)
}

/// The `i`-th ingest of a run.
pub open spec fn run_step(
    states: Seq<IndexView>,
    aliases: Seq<Seq<char>>,
    hashes: Seq<Seq<u8>>,
    candidates: Seq<Seq<u8>>,
    news: Seq<bool>,
    files: Seq<Seq<u8>>,
    i: int,
) -> bool {
    &&& ingested(states[i], states[i + 1], aliases[i], hashes[i], candidates[i], news[i], files[i])
    &&& no_slash(aliases[i])
    &&& hashes[i].len() == 32
}

/// The index of a fresh data root.
pub open spec fn empty_index(ix: IndexView) -> bool {
    ix.main == Map::<Seq<u8>, Seq<u8>>::empty() && ix.aliases == Map::<Seq<u8>, Seq<u8>>::empty()
        && ix.filenames == Map::<Seq<u8>, Seq<u8>>::empty()
}

proof fn lemma_run_prefix(
    states: Seq<IndexView>,
    aliases: Seq<Seq<char>>,
    hashes: Seq<Seq<u8>>,
    candidates: Seq<Seq<u8>>,
    news: Seq<bool>,
    files: Seq<Seq<u8>>,
    k: int,
)
    requires
        ingest_run(states, aliases, hashes, candidates, news, files),
        empty_index(states[0]),
        0 <= k <= aliases.len(),
    ensures
        all_indexed(states[k], aliases.subrange(0, k).to_set()),
    decreases k,
{
    if k == 0 {
        assert(aliases.subrange(0, 0).to_set() =~= Set::<Seq<char>>::empty());
    } else {
        let j = k - 1;
        lemma_run_prefix(states, aliases, hashes, candidates, news, files, j);
        assert(run_step(states, aliases, hashes, candidates, news, files, j));
        assert(j + 1 == k);
        lemma_ingest_keeps_index(
            states[j],
            states[j + 1],
            aliases.subrange(0, j).to_set(),
            aliases[j],
            hashes[j],
            candidates[j],
            news[j],
            files[j],
        );
        assert(aliases.subrange(0, k).to_set() =~= aliases.subrange(0, k - 1).to_set().insert(
            aliases[k - 1],
        )) by {
            assert(aliases.subrange(0, k) =~= aliases.subrange(0, k - 1).push(aliases[k - 1]));
            aliases.subrange(0, k - 1).lemma_push_to_set_commute(aliases[k - 1]);
        }
    }
}

/// After any run of ingests from a fresh index, every alias leads to one
/// hash, that hash to one filename whose row leads back to it, different
/// hashes have different filenames, and there are no more hashes than
/// aliases.
pub proof fn lemma_ingest_run_indexed(
    states: Seq<IndexView>,
    aliases: Seq<Seq<char>>,
    hashes: Seq<Seq<u8>>,
    candidates: Seq<Seq<u8>>,
    news: Seq<bool>,
    files: Seq<Seq<u8>>,
)
    requires
        ingest_run(states, aliases, hashes, candidates, news, files),
        empty_index(states[0]),
    ensures
        all_indexed(states.last(), aliases.to_set()),
        hashes_of(states.last(), aliases.to_set()).len() <= aliases.to_set().len(),
        forall|a: Seq<char>, b: Seq<char>|
            #![trigger aliases.to_set().contains(a), aliases.to_set().contains(b)]
            aliases.to_set().contains(a) && aliases.to_set().contains(b) && states.last().aliases[alias_row(a)]
                != states.last().aliases[alias_row(b)] ==> states.last().main[states.last().aliases[alias_row(a)]]
                != states.last().main[states.last().aliases[alias_row(b)]],
{
    let n = aliases.len() as int;
    lemma_run_prefix(states, aliases, hashes, candidates, news, files, n);
    assert(aliases.subrange(0, n) =~= aliases);
    vstd::seq_lib::seq_to_set_is_finite(aliases);
    lemma_hashes_bounded(states.last(), aliases.to_set());
}

/// Where every alias of a set is indexed, the set holds no fewer aliases
/// than there are hashes behind them.
pub proof fn lemma_hashes_bounded(ix: IndexView, uploaded: Set<Seq<char>>)
    requires
        uploaded.finite(),
    ensures
        hashes_of(ix, uploaded).finite(),
        hashes_of(ix, uploaded).len() <= uploaded.len(),
{
    vstd::set_lib::lemma_map_size_bound(
        uploaded,
        hashes_of(ix, uploaded),
        |a: Seq<char>| ix.aliases[alias_row(a)],
    );
}

/// Uploading the same content twice gives two different aliases that lead
/// to the same filename, and the second upload stores no new file.
pub proof fn lemma_same_content_one_file(
    ix: IndexView,
    a1: Seq<char>,
    a2: Seq<char>,
    h: Seq<u8>,
    id1: Seq<u8>,
    id2: Seq<u8>,
    f1: Seq<u8>,
    f2: Seq<u8>,
)
    requires
        no_slash(a1),
        no_slash(a2),
        alias_is_fresh(ix, a1, h, id1),
        alias_is_fresh(after_upload(ix, a1, h, id1, f1), a2, h, id2),
    ensures
        a1 != a2,
        !dedup_outcome(with_alias(after_upload(ix, a1, h, id1, f1), a2, h, id2), h, f2).0,
        resolve(after_upload(after_upload(ix, a1, h, id1, f1), a2, h, id2, f2), a1) is Some,
        resolve(after_upload(after_upload(ix, a1, h, id1, f1), a2, h, id2, f2), a1) == resolve(
            after_upload(after_upload(ix, a1, h, id1, f1), a2, h, id2, f2),
            a2,
        ),
        after_upload(after_upload(ix, a1, h, id1, f1), a2, h, id2, f2).filenames == after_upload(
            ix,
            a1,
            h,
            id1,
            f1,
        ).filenames,
{
    let ix1 = after_upload(ix, a1, h, id1, f1);
    let ix2 = after_upload(ix1, a2, h, id2, f2);
    lemma_alias_not_id_row(a1, a1);
    lemma_alias_not_id_row(a1, a2);
    lemma_alias_not_id_row(a2, a2);
    lemma_encode_injective(a1, a2);
    assert(ix1.aliases.contains_key(alias_row(a1)));
    assert(alias_row_key(h, id2).len() != h.len());
    assert(ix2.aliases[alias_row(a1)] == h);
    assert(ix2.aliases[alias_row(a2)] == h);
}

/// After an alias is deleted with its token, its rows are gone; and where it
/// was the last alias of its content, once the content is purged neither
/// the hash's filename row, nor the filename's hash row, nor any variant row
/// of the hash is left.
pub proof fn lemma_delete_then_purge(ix: IndexView, alias: Seq<char>, token: Seq<char>)
    requires
        token_is(ix, alias, token),
        ix.aliases.contains_key(alias_row(alias)),
        ix.aliases.contains_key(id_row(alias)),
    ensures
        ({
            let ix1 = without_alias(ix, alias);
            let h = ix.aliases[alias_row(alias)];
            let ix2 = IndexView { main: ix1.main.remove(h), ..ix1 };
            let f = ix1.main[h];
            &&& !ix1.aliases.contains_key(alias_row(alias))
            &&& !ix1.aliases.contains_key(token_row(alias))
            &&& (unreferenced(ix1.main, h) && ix2.filenames.contains_key(f) ==> {
                let ix3 = purged(ix2, f);
                &&& !ix3.main.contains_key(h)
                &&& !ix3.filenames.contains_key(f)
                &&& (ix2.filenames[f] == h ==> variant_rows(ix3.main, h).is_empty())
            })
        }),
{
    let ix1 = without_alias(ix, alias);
    let h = ix.aliases[alias_row(alias)];
    let ix2 = IndexView { main: ix1.main.remove(h), ..ix1 };
    let f = ix1.main[h];
    if unreferenced(ix1.main, h) && ix2.filenames.contains_key(f) && ix2.filenames[f] == h {
        let ix3 = purged(ix2, f);
        assert(variant_rows(ix3.main, h) =~= Set::empty());
    }
}

/// `h ‖ sep ‖ rest` lies in `[h ‖ sep, h ‖ sep+1)`.
pub proof fn lemma_row_in_range(h: Seq<u8>, sep: u8, rest: Seq<u8>)
    requires
        sep < 255,
    ensures
        in_range(h.push(sep) + rest, h.push(sep), h.push((sep + 1) as u8)),
    decreases h.len(),
{
    let k = h.push(sep) + rest;
    if h.len() > 0 {
        lemma_row_in_range(h.drop_first(), sep, rest);
        assert(k.drop_first() =~= h.drop_first().push(sep) + rest);
        assert(h.push(sep).drop_first() =~= h.drop_first().push(sep));
        assert(h.push((sep + 1) as u8).drop_first() =~= h.drop_first().push((sep + 1) as u8));
    } else {
        assert(h.push(sep) =~= seq![sep]);
        assert(h.push((sep + 1) as u8) =~= seq![(sep + 1) as u8]);
        assert(k[0] == sep);
        assert(seq![sep].drop_first().len() == 0);
        assert(!lex_lt(k.drop_first(), seq![sep].drop_first()));
        assert(!lex_lt(k, h.push(sep)));
        assert(lex_lt(k, h.push((sep + 1) as u8)));
    }
}

/// Recording a variant twice leaves the rows as recording it once, and the
/// row is one of the hash's variant rows, which a purge of the hash removes.
pub proof fn lemma_variant_recorded_once(main: Map<Seq<u8>, Seq<u8>>, h: Seq<u8>, path: Seq<u8>)
    ensures
        ({
            let m1 = main.insert(variant_row_key(h, path), path);
            &&& m1.insert(variant_row_key(h, path), path) == m1
            &&& variant_rows(m1, h).contains(variant_row_key(h, path))
        }),
{
    let m1 = main.insert(variant_row_key(h, path), path);
    assert(m1.insert(variant_row_key(h, path), path) =~= m1);
    lemma_row_in_range(h, 2u8, path);
}

/// Every alias row of a hash lies among the rows that count its aliases.
pub proof fn lemma_alias_row_counted(main: Map<Seq<u8>, Seq<u8>>, h: Seq<u8>, id: Seq<u8>)
    requires
        main.contains_key(alias_row_key(h, id)),
    ensures
        !unreferenced(main, h),
{
    lemma_row_in_range(h, 0u8, id);
    assert(keys_between(main, h.push(0u8), h.push(1u8)).contains(alias_row_key(h, id)));
}

} // verus!
