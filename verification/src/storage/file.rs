//! The layout of the file storage backend: each collection is a directory
//! under the storage root, and each item lives at
//! `<collection>/<key[0..2]>/<key[2..]>`, its key's first two bytes naming a
//! shard directory.
use vstd::prelude::*;
use vstd::string::{StringExecFns, StringSliceAdditionalSpecFns};
use vstd::utf8::*;

use rand::distributions::{Alphanumeric, DistString};

use super::Collection;
use crate::util::text::push_char;

verus! {

broadcast use vstd::utf8::group_utf8_lib;

/// The name of a collection's directory.
pub open spec fn collection_dir(collection: Collection) -> Seq<char> {
    match collection {
        Collection::Snapshot => seq!['s', 'n', 'a', 'p', 's', 'h', 'o', 't'],
        Collection::Blob => seq!['b', 'l', 'o', 'b'],
    }
}

/// The text of a key's first two UTF-8 bytes: its shard directory.
pub open spec fn key_prefix(key: Seq<char>) -> Seq<char> {
    decode_utf8(encode_utf8(key).take(2))
}

/// The text of a key after its first two UTF-8 bytes.
pub open spec fn key_rest(key: Seq<char>) -> Seq<char> {
    decode_utf8(encode_utf8(key).skip(2))
}

/// Whether a key can be stored: it has more than two UTF-8 bytes, and the
/// first two of them end at a character boundary.
pub open spec fn storable_key(key: Seq<char>) -> bool {
    &&& encode_utf8(key).len() > 2
    &&& is_char_boundary(encode_utf8(key), 2)
}

/// The components of an item's path: `<collection>/<key[0..2]>/<key[2..]>`.
pub open spec fn item_path_parts(collection: Collection, key: Seq<char>) -> Seq<Seq<char>> {
    seq![collection_dir(collection), key_prefix(key), key_rest(key)]
}

/// A path below the storage root, as the sequence of its components.
pub struct StoragePath {
    pub components: Vec<String>,
}

impl StoragePath {
    /// The components, each as its text.
    pub open spec fn parts(&self) -> Seq<Seq<char>> {
        self.components@.map_values(|c: String| c@)
    }
}

/// The error for a key too short to be stored: keys need at least three
/// bytes.
pub struct KeyTooShort;

/// The path of a collection's directory below the storage root.
pub fn get_collection_path(collection: Collection) -> (path: StoragePath)
    ensures
        path.parts() == seq![collection_dir(collection)],
{
    let name = match collection {
        Collection::Snapshot => {
            proof {
                reveal_strlit("snapshot");
            }
            assert("snapshot"@ =~= collection_dir(collection));
            "snapshot"
        },
        Collection::Blob => {
            proof {
                reveal_strlit("blob");
            }
            assert("blob"@ =~= collection_dir(collection));
            "blob"
        },
    };
    let mut components: Vec<String> = Vec::new();
    components.push(name.to_owned());
    let path = StoragePath { components };
    assert(path.parts() =~= seq![collection_dir(collection)]);
    path
}

/// The path of an item below the storage root:
/// `<collection>/<key[0..2]>/<key[2..]>`. Keys of two bytes or fewer are
/// refused; a longer key must not split a character at its second byte.
pub fn get_item_path(collection: Collection, key: &str) -> (res: Result<StoragePath, KeyTooShort>)
    requires
        key.spec_bytes().len() <= 2 || is_char_boundary(key.spec_bytes(), 2),
    ensures
        res is Err <==> key.spec_bytes().len() <= 2,
        res matches Ok(path) ==> path.parts() == item_path_parts(collection, key@),
{
    let bytes = key.as_bytes();
    if bytes.len() <= 2 {
        return Err(KeyTooShort);
    }
    let (prefix, rest) = key.split_at(2);
    assert(prefix@ == key_prefix(key@)) by {
        assert(decode_utf8(encode_utf8(prefix@)) == prefix@);
        assert(encode_utf8(prefix@) =~= encode_utf8(key@).take(2));
    }
    assert(rest@ == key_rest(key@)) by {
        assert(decode_utf8(encode_utf8(rest@)) == rest@);
        assert(encode_utf8(rest@) =~= encode_utf8(key@).skip(2));
    }
    let collection_path = get_collection_path(collection);
    assert(collection_path.parts().len() == 1);
    assert(collection_path.components@.len() == 1);
    assert(collection_path.parts()[0] == collection_path.components@[0]@);
    let mut components = collection_path.components;
    components.push(prefix.to_owned());
    components.push(rest.to_owned());
    let path = StoragePath { components };
    assert(path.parts()[0] == collection_dir(collection));
    assert(path.parts() =~= item_path_parts(collection, key@));
    Ok(path)
}

/// Whether a character is an ASCII letter or digit.
pub open spec fn is_ascii_alphanumeric(c: char) -> bool {
    ||| 'A' <= c <= 'Z'
    ||| 'a' <= c <= 'z'
    ||| '0' <= c <= '9'
}

/// A random text of `len` ASCII letters and digits.
///
/// Trusted: calls `rand::distributions::Alphanumeric`'s `sample_string` with
/// the thread-local generator; its source appends `len` bytes, each drawn
/// from `A`-`Z`, `a`-`z` and `0`-`9`. Which ones is left open.
#[verifier::external_body]
fn random_alphanumeric(len: usize) -> (text: String)
    ensures
        text@.len() == len,
        forall|i: int| 0 <= i < len ==> is_ascii_alphanumeric(#[trigger] text@[i]),
{
    Alphanumeric.sample_string(&mut rand::thread_rng(), len)
}

/// A random name for a temporary file that an item is written to before it
/// is moved into place: 16 ASCII letters and digits.
pub fn temp_file_name() -> (name: String)
    ensures
        name@.len() == 16,
        forall|i: int| 0 <= i < 16 ==> is_ascii_alphanumeric(#[trigger] name@[i]),
{
    random_alphanumeric(16)
}

/// Path components joined with `/`.
pub open spec fn joined_with_slash(parts: Seq<Seq<char>>) -> Seq<char>
    decreases parts.len(),
{
    if parts.len() == 0 {
        Seq::empty()
    } else if parts.len() == 1 {
        parts[0]
    } else {
        joined_with_slash(parts.drop_last()) + seq!['/'] + parts.last()
    }
}

/// The key of a stored item from the components of its file's path below
/// the collection directory: the shard directory's name followed directly
/// by the rest of the path, whose components (the key's remainder, split at
/// `/` into directories) are joined with `/`.
pub open spec fn item_key_text(relative: Seq<Seq<char>>) -> Seq<char> {
    if relative.len() == 0 {
        Seq::empty()
    } else {
        relative[0] + joined_with_slash(relative.skip(1))
    }
}

/// The key of a stored item from the components of its file's path below
/// the collection directory (see `item_key_text`).
pub fn collection_item_key(relative: &Vec<String>) -> (key: String)
    ensures
        key@ == item_key_text(relative@.map_values(|c: String| c@)),
{
    let ghost parts = relative@.map_values(|c: String| c@);
    let mut key = String::new();
    if relative.len() == 0 {
        return key;
    }
    key.append(relative[0].as_str());
    let ghost rest = parts.skip(1);
    assert(joined_with_slash(rest.take(0)) =~= Seq::<char>::empty()) by {
        assert(rest.take(0) =~= Seq::<Seq<char>>::empty());
    }
    assert(key@ =~= parts[0] + joined_with_slash(rest.take(0)));
    let mut i: usize = 1;
    while i < relative.len()
        invariant
            1 <= i <= relative@.len(),
            parts == relative@.map_values(|c: String| c@),
            rest == parts.skip(1),
            key@ == parts[0] + joined_with_slash(rest.take(i - 1)),
        decreases relative@.len() - i,
    {
        let ghost before = key@;
        if i > 1 {
            push_char(&mut key, '/');
        }
        key.append(relative[i].as_str());
        proof {
            let next = rest.take(i as int);
            assert(next.drop_last() =~= rest.take(i - 1));
            assert(next.last() == relative@[i as int]@);
            if i == 1 {
                assert(rest.take(0) =~= Seq::<Seq<char>>::empty());
                assert(next.len() == 1);
            }
            assert(key@ =~= parts[0] + joined_with_slash(next));
        }
        i = i + 1;
    }
    assert(rest.take(relative@.len() - 1) =~= rest);
    key
}

/// Text split at every `/` into its parts (empty parts included).
pub open spec fn split_at_slash(text: Seq<char>) -> Seq<Seq<char>>
    decreases text.len(),
{
    if text.len() == 0 {
        seq![Seq::empty()]
    } else {
        let parts = split_at_slash(text.drop_last());
        if text.last() == '/' {
            parts.push(Seq::empty())
        } else {
            parts.update(parts.len() - 1, parts.last().push(text.last()))
        }
    }
}

/// Joining the parts of text split at `/` gives the text back.
pub proof fn lemma_join_split(text: Seq<char>)
    ensures
        split_at_slash(text).len() >= 1,
        joined_with_slash(split_at_slash(text)) == text,
    decreases text.len(),
{
    if text.len() > 0 {
        let prefix = text.drop_last();
        lemma_join_split(prefix);
        let parts = split_at_slash(prefix);
        let c = text.last();
        assert(text =~= prefix.push(c));
        if c == '/' {
            let pushed = parts.push(Seq::<char>::empty());
            assert(pushed.drop_last() =~= parts);
            assert(joined_with_slash(pushed) == joined_with_slash(parts) + seq!['/'] + Seq::<
                char,
            >::empty());
            assert(joined_with_slash(pushed) =~= text);
        } else {
            let updated = parts.update(parts.len() - 1, parts.last().push(c));
            assert(split_at_slash(text) == updated);
            if parts.len() >= 2 {
                assert(updated.drop_last() =~= parts.drop_last());
                assert(joined_with_slash(updated) == joined_with_slash(parts.drop_last()) + seq!['/']
                    + parts.last().push(c));
                assert(joined_with_slash(parts) == joined_with_slash(parts.drop_last()) + seq!['/']
                    + parts.last());
                assert(joined_with_slash(updated) =~= text);
            } else {
                assert(joined_with_slash(updated) == updated[0]);
                assert(joined_with_slash(parts) == parts[0]);
                assert(joined_with_slash(updated) =~= text);
            }
        }
    }
}

/// Listing gives back what writing stored: a storable key's item lies at
/// its prefix directory, then at its remainder split at `/` into
/// directories, and the listed key of those components is the key. (These
/// are the components the file system keeps when the prefix holds no `/`
/// and no part of the remainder is empty.)
pub proof fn lemma_item_key_of_item_path(key: Seq<char>)
    requires
        storable_key(key),
    ensures
        item_key_text(seq![key_prefix(key)] + split_at_slash(key_rest(key))) == key,
{
    let bytes = encode_utf8(key);
    lemma_join_split(key_rest(key));
    decode_utf8_split(bytes, 2);
    assert(bytes.subrange(0, 2) =~= bytes.take(2));
    assert(bytes.subrange(2, bytes.len() as int) =~= bytes.skip(2));
    let relative = seq![key_prefix(key)] + split_at_slash(key_rest(key));
    assert(relative.skip(1) =~= split_at_slash(key_rest(key)));
}

/// Items of different collections, or with different storable keys, never
/// share a path.
pub proof fn lemma_item_paths_distinct(
    collection1: Collection,
    key1: Seq<char>,
    collection2: Collection,
    key2: Seq<char>,
)
    requires
        storable_key(key1),
        storable_key(key2),
        collection1 != collection2 || key1 != key2,
    ensures
        item_path_parts(collection1, key1) != item_path_parts(collection2, key2),
{
    let p1 = item_path_parts(collection1, key1);
    let p2 = item_path_parts(collection2, key2);
    if collection1 != collection2 {
        assert(p1[0].len() != p2[0].len());
    } else if p1 == p2 {
        lemma_prefix_rest_make_key(key1);
        lemma_prefix_rest_make_key(key2);
        assert(p1[1] == p2[1] && p1[2] == p2[2]);
    }
}

/// A storable key is its prefix followed by its remainder.
pub proof fn lemma_prefix_rest_make_key(key: Seq<char>)
    requires
        storable_key(key),
    ensures
        key_prefix(key) + key_rest(key) == key,
{
    let bytes = encode_utf8(key);
    decode_utf8_split(bytes, 2);
    assert(bytes.subrange(0, 2) =~= bytes.take(2));
    assert(bytes.subrange(2, bytes.len() as int) =~= bytes.skip(2));
}

} // verus!
