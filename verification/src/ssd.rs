//! The directory on the node's local SSD that an index lives in.

use crate::scope::check_never_leaves;
use crate::scope::check_stays_within;
use crate::scope::is_absolute;
use crate::scope::joined;
use crate::scope::law_a_relative_path_stays_within_its_directory;
use crate::scope::law_a_tamed_path_is_relative_and_never_leaves;
use crate::scope::leads_into;
use crate::scope::lemma_leads_into;
use crate::scope::lemma_plain_name;
use crate::scope::lemma_tamed;
use crate::scope::names;
use crate::scope::never_leaves;
use crate::scope::stays_below;
use crate::scope::stays_within;
use crate::scope::tame;
use crate::scope::tamed;
use crate::scope::way;
use crate::scope::SEPARATOR;
use std::path::PathBuf;
use vstd::prelude::*;
use vstd::utf8::encode_utf8;
use vstd::utf8::is_ascii_chars_encode_utf8;

verus! {

/// `std::path::PathBuf`: an owned, growable collection of the bytes of a path.
#[verifier::external_type_specification]
#[verifier::external_body]
pub struct ExPathBuf(PathBuf);

/// The bytes that a path holds, in order.
pub uninterp spec fn path_bytes(path: PathBuf) -> Seq<u8>;

/// The bytes of a path with another adjoined to it, as `std::path::Path::join`
/// makes them on Unix.
pub uninterp spec fn joined_path(base: Seq<u8>, item: Seq<u8>) -> Seq<u8>;

/// A directory that does not end in a separator, and something to look for
/// below it.
pub open spec fn is_below(base: Seq<u8>, item: Seq<u8>) -> bool {
    &&& base.len() > 0
    &&& base.last() != SEPARATOR
    &&& item.len() > 0
    &&& !is_absolute(item)
}

/// A path is `item` adjoined to `base`: an absolute one in its place, any other
/// behind it after a separator.
pub open spec fn is_adjoined(base: Seq<u8>, item: Seq<u8>, path: Seq<u8>) -> bool {
    &&& path == joined_path(base, item)
    &&& is_absolute(item) ==> path == item
    &&& is_below(base, item) ==> path == base.push(SEPARATOR) + item
}

/// Calls `std::path::Path::join` on Unix, where a path is a string of bytes: an
/// absolute second path replaces the first, any other extends it behind a
/// separator. Whether a separator is added to a first path that ends in one, or
/// before a second path that is empty, is left open, and so is how an empty first
/// path is extended.
#[verifier::external_body]
pub(crate) fn join_path(base: &PathBuf, item: &str) -> (joined: PathBuf)
    ensures
        path_bytes(joined) == joined_path(path_bytes(*base), encode_utf8(item@)),
        is_absolute(encode_utf8(item@)) ==> path_bytes(joined) == encode_utf8(item@),
        is_below(path_bytes(*base), encode_utf8(item@)) ==> path_bytes(joined) == path_bytes(
            *base,
        ).push(SEPARATOR) + encode_utf8(item@),
        path_bytes(*base).len() > 0 && !is_absolute(encode_utf8(item@)) ==> path_bytes(joined)
            == path_bytes(*base) + encode_utf8(item@) || path_bytes(joined) == path_bytes(
            *base,
        ).push(SEPARATOR) + encode_utf8(item@),
{
    base.join(item)
}

/// Calls `std::path::PathBuf::from` on a text, which copies its bytes.
#[verifier::external_body]
pub(crate) fn path_from(text: &str) -> (path: PathBuf)
    ensures
        path_bytes(path) == encode_utf8(text@),
{
    PathBuf::from(text)
}

/// Calls `OsStr::as_encoded_bytes` of std, which gives the bytes of a path.
#[verifier::external_body]
pub(crate) fn bytes_of_path(path: &PathBuf) -> (bytes: &[u8])
    ensures
        bytes@ == path_bytes(*path),
{
    path.as_os_str().as_encoded_bytes()
}

/// A storage provider that scopes all DiskANN file operations to one directory
/// on the node's local SSD.
pub struct NodeLocalSsdProvider {
    pub base_dir: PathBuf,
}

/// What of an identifier is looked for in a directory: the identifier itself if
/// it stays within, or else what is left of it without its root and without the
/// components that name a parent directory.
pub open spec fn scoped(base: Seq<u8>, item: Seq<u8>) -> Seq<u8> {
    if is_absolute(item) && stays_within(base, item) {
        item
    } else if !is_absolute(item) && never_leaves(item) {
        item
    } else {
        tamed(item)
    }
}

impl NodeLocalSsdProvider {
    /// Creates a new provider. The directory should be provisioned before calling this.
    pub fn new(base_dir: PathBuf) -> (provider: Self)
        ensures
            provider.base_dir == base_dir,
    {
        NodeLocalSsdProvider { base_dir }
    }

    /// Resolve a DiskANN string identifier (such as `index.graph`) to a
    /// physical path within the SSD directory.
    ///
    /// A relative identifier that nowhere leads above the directory is looked for
    /// below it, as it stands. An absolute one that lies within the directory is
    /// that path. Any other would lead out of the directory, and is looked for
    /// below it without its root and without the components that name a parent
    /// directory.
    pub fn get_path(&self, item_identifier: &str) -> (path: PathBuf)
        ensures
            ({
                let base = path_bytes(self.base_dir);
                let item = encode_utf8(item_identifier@);
                &&& stays_within(base, path_bytes(path))
                &&& is_below(base, item) && never_leaves(item) ==> path_bytes(path) == base.push(
                    SEPARATOR,
                ) + item
                &&& is_absolute(item) && stays_within(base, item) ==> path_bytes(path) == item
                &&& is_below(base, scoped(base, item)) ==> path_bytes(path) == base.push(SEPARATOR)
                    + scoped(base, item)
                &&& base.len() == 0 ==> path_bytes(path) == scoped(base, item)
                &&& base.len() > 0 ==> path_bytes(path) == joined_path(base, scoped(base, item))
                &&& base.len() > 0 && !is_absolute(scoped(base, item)) ==> path_bytes(path) == base
                    + scoped(base, item) || path_bytes(path) == base.push(SEPARATOR) + scoped(
                    base,
                    item,
                )
            }),
    {
        let base: &[u8] = bytes_of_path(&self.base_dir);
        let item: &[u8] = item_identifier.as_bytes();
        let absolute: bool = item.len() > 0 && item[0] == SEPARATOR;
        if absolute && check_stays_within(base, item) {
            return join_path(&self.base_dir, item_identifier);
        }
        let inner: String = if !absolute && check_never_leaves(item) {
            item_identifier.to_owned()
        } else {
            tame(item_identifier)
        };
        proof {
            law_a_tamed_path_is_relative_and_never_leaves(item@);
            law_a_relative_path_stays_within_its_directory(base@, encode_utf8(inner@));
            assert(Seq::<u8>::empty() + encode_utf8(inner@) =~= encode_utf8(inner@));
        }
        if base.len() == 0 {
            assert(base@ =~= Seq::<u8>::empty());
            path_from(inner.as_str())
        } else {
            join_path(&self.base_dir, inner.as_str())
        }
    }
}

/// The directory of an index, below the directory of all indexes.
pub fn index_dir(root: &PathBuf, index_key: &str) -> (path: PathBuf)
    ensures
        is_adjoined(path_bytes(*root), encode_utf8(index_key@), path_bytes(path)),
{
    join_path(root, index_key)
}

/// The dataset in the directory of an index.
pub fn dataset_path(index_dir: &PathBuf) -> (path: PathBuf)
    ensures
        is_adjoined(path_bytes(*index_dir), encode_utf8("dataset.bin"@), path_bytes(path)),
{
    join_path(index_dir, "dataset.bin")
}

/// What the names of the files of an index begin with, in its directory.
pub fn index_prefix(index_dir: &PathBuf) -> (path: PathBuf)
    ensures
        is_adjoined(path_bytes(*index_dir), encode_utf8("index"@), path_bytes(path)),
{
    join_path(index_dir, "index")
}

/// A file below an absolute directory, named by its whole path, resolves to that
/// path: so do the files of an index that are named by their prefix.
pub proof fn law_a_path_within_the_directory_resolves_to_itself(base: Seq<u8>, item: Seq<u8>)
    requires
        is_absolute(base),
        is_below(base, item),
        never_leaves(item),
    ensures
        stays_within(base, base.push(SEPARATOR) + item),
        scoped(base, base.push(SEPARATOR) + item) == base.push(SEPARATOR) + item,
{
    law_a_relative_path_stays_within_its_directory(base, item);
}

/// Where an identifier leads decides what it resolves to. An absolute one that
/// leads into the directory resolves to itself, and a relative one whose way stays
/// below is looked for in the directory as it stands. Of any other, what is looked
/// for in the directory is its names. So whatever it is, it leads into the
/// directory.
pub proof fn law_an_identifier_resolves_by_where_it_leads(
    provider: &NodeLocalSsdProvider,
    item_identifier: &str,
    path: PathBuf,
)
    requires
        call_ensures(NodeLocalSsdProvider::get_path, (provider, item_identifier), path),
    ensures
        ({
            let base = path_bytes(provider.base_dir);
            let item = encode_utf8(item_identifier@);
            let absolute = item.len() > 0 && item[0] == 0x2f;
            let sought = if !absolute && stays_below(way(item)) {
                item
            } else {
                joined(names(item))
            };
            &&& leads_into(base, path_bytes(path))
            &&& if absolute && leads_into(base, item) {
                path_bytes(path) == item
            } else if base.len() == 0 {
                path_bytes(path) == sought
            } else if base.last() != 0x2f && sought.len() > 0 {
                path_bytes(path) == base + seq![0x2fu8] + sought
            } else {
                ||| path_bytes(path) == base + sought
                ||| path_bytes(path) == base + seq![0x2fu8] + sought
            }
        }),
{
    let base = path_bytes(provider.base_dir);
    let item = encode_utf8(item_identifier@);
    lemma_leads_into(base, item);
    lemma_leads_into(base, path_bytes(path));
    lemma_tamed(item);
    law_a_tamed_path_is_relative_and_never_leaves(item);
    let sought = scoped(base, item);
    assert(base.push(SEPARATOR) + sought =~= base + seq![0x2fu8] + sought);
}

/// A file whose name is a single component, be it whatever it may but a dot or
/// two, is looked for under that name in the directory.
pub proof fn law_a_plain_file_name_is_looked_for_as_it_is(
    provider: &NodeLocalSsdProvider,
    item_identifier: &str,
    path: PathBuf,
)
    requires
        call_ensures(NodeLocalSsdProvider::get_path, (provider, item_identifier), path),
        path_bytes(provider.base_dir).len() > 0,
        path_bytes(provider.base_dir).last() != 0x2f,
        encode_utf8(item_identifier@).len() > 0,
        forall|i: int|
            0 <= i < encode_utf8(item_identifier@).len() ==> encode_utf8(item_identifier@)[i]
                != 0x2f,
        encode_utf8(item_identifier@) != seq![0x2eu8, 0x2eu8],
    ensures
        path_bytes(path) == path_bytes(provider.base_dir) + seq![0x2fu8] + encode_utf8(
            item_identifier@,
        ),
{
    let base = path_bytes(provider.base_dir);
    let item = encode_utf8(item_identifier@);
    law_an_identifier_resolves_by_where_it_leads(provider, item_identifier, path);
    lemma_plain_name(item);
    lemma_leads_into(base, item);
}

/// A provider keeps the directory that it is given.
pub proof fn law_a_provider_keeps_its_directory(base_dir: PathBuf, provider: NodeLocalSsdProvider)
    requires
        call_ensures(NodeLocalSsdProvider::new, (base_dir,), provider),
    ensures
        path_bytes(provider.base_dir) == path_bytes(base_dir),
{
}

/// The directory of an index lies in that of all indexes under its key, its
/// dataset in it under `dataset.bin`, and its files under names that begin with
/// `index`.
pub proof fn law_an_index_lies_below_the_directory_of_all(
    root: &PathBuf,
    index_key: &str,
    dir: PathBuf,
    dataset: PathBuf,
    prefix: PathBuf,
)
    requires
        call_ensures(index_dir, (root, index_key), dir),
        call_ensures(dataset_path, (&dir,), dataset),
        call_ensures(index_prefix, (&dir,), prefix),
        path_bytes(*root).len() > 0,
        path_bytes(*root).last() != 0x2f,
        encode_utf8(index_key@).len() > 0,
        encode_utf8(index_key@)[0] != 0x2f,
    ensures
        path_bytes(dir) == path_bytes(*root) + seq![0x2fu8] + encode_utf8(index_key@),
        encode_utf8(index_key@).last() != 0x2f ==> {
            &&& path_bytes(dataset) == path_bytes(dir) + seq![0x2fu8] + encode_utf8(
                "dataset.bin"@,
            )
            &&& path_bytes(prefix) == path_bytes(dir) + seq![0x2fu8] + encode_utf8("index"@)
        },
{
    let outer = path_bytes(*root);
    let key = encode_utf8(index_key@);
    assert(is_below(outer, key));
    assert(outer.push(SEPARATOR) + key =~= outer + seq![0x2fu8] + key);
    let inner = path_bytes(dir);
    reveal_strlit("dataset.bin");
    reveal_strlit("index");
    is_ascii_chars_encode_utf8("dataset.bin"@);
    is_ascii_chars_encode_utf8("index"@);
    let name = encode_utf8("dataset.bin"@);
    let start = encode_utf8("index"@);
    assert(name[0] == 'd' as u8);
    assert(start[0] == 'i' as u8);
    if key.last() != 0x2f {
        assert(inner.last() == key.last());
        assert(is_below(inner, name) && is_below(inner, start));
        assert(inner.push(SEPARATOR) + name =~= inner + seq![0x2fu8] + name);
        assert(inner.push(SEPARATOR) + start =~= inner + seq![0x2fu8] + start);
    }
}

} // verus!
