//! Source keys. A registered source instance is addressed by the composite
//! key `pluginName_instanceId`: the plugin's name, one separator character,
//! and the instance id. The plugin name must not contain the separator;
//! the instance id may, so a key is always split at its first separator.

use vstd::prelude::*;

verus! {

/// The character that joins a plugin name and an instance id into a key.
pub open spec fn key_separator() -> char {
    '_'
}

/// A well-formed key: some separator occurs in it.
pub open spec fn has_separator(key: Seq<char>) -> bool {
    exists|i: int| 0 <= i < key.len() && key[i] == key_separator()
}

/// `plugin` and `instance` split `key` at its first separator.
pub open spec fn splits_key(key: Seq<char>, plugin: Seq<char>, instance: Seq<char>) -> bool {
    &&& key == plugin + seq![key_separator()] + instance
    &&& !has_separator(plugin)
}

/// `key` names an instance of `plugin`: it begins with the plugin's name
/// followed by the separator.
pub open spec fn key_of_plugin(key: Seq<char>, plugin: Seq<char>) -> bool {
    &&& key.len() > plugin.len()
    &&& key.subrange(0, plugin.len() as int) == plugin
    &&& key[plugin.len() as int] == key_separator()
}

/// Character-by-character string equality; the comparison every key and id
/// lookup goes through.
pub fn str_eq(a: &str, b: &str) -> (r: bool)
    ensures
        r == (a@ == b@),
{
    let a_len: usize = a.unicode_len();
    let b_len: usize = b.unicode_len();
    if a_len != b_len {
        return false;
    }
    let mut i: usize = 0;
    while i < a_len
        invariant
            0 <= i <= a_len,
            a_len == a@.len(),
            a_len == b@.len(),
            forall|j: int| 0 <= j < i ==> a@[j] == b@[j],
        decreases a_len - i,
    {
        if a.get_char(i) != b.get_char(i) {
            return false;
        }
        i = i + 1;
    }
    proof {
        assert(a@ =~= b@);
    }
    true
}

/// `p` is a prefix of `s`.
pub open spec fn is_prefix_of(p: Seq<char>, s: Seq<char>) -> bool {
    p.len() <= s.len() && s.subrange(0, p.len() as int) == p
}

/// Does `s` begin with `p`?
pub fn str_has_prefix(s: &str, p: &str) -> (r: bool)
    ensures
        r == is_prefix_of(p@, s@),
{
    let s_len: usize = s.unicode_len();
    let p_len: usize = p.unicode_len();
    if p_len > s_len {
        return false;
    }
    let mut i: usize = 0;
    while i < p_len
        invariant
            0 <= i <= p_len,
            p_len == p@.len(),
            s_len == s@.len(),
            p_len <= s_len,
            forall|j: int| 0 <= j < i ==> s@[j] == p@[j],
        decreases p_len - i,
    {
        if s.get_char(i) != p.get_char(i) {
            assert(s@.subrange(0, p@.len() as int)[i as int] != p@[i as int]);
            return false;
        }
        i = i + 1;
    }
    proof {
        assert(s@.subrange(0, p@.len() as int) =~= p@);
    }
    true
}

/// Splits a source key into its plugin name and instance id at the first
/// separator. Keys without a separator are malformed and yield `None`.
pub fn split_key(key: &str) -> (r: Option<(String, String)>)
    ensures
        match r {
            Some(parts) => splits_key(key@, parts.0@, parts.1@),
            None => !has_separator(key@),
        },
{
    let len: usize = key.unicode_len();
    let mut i: usize = 0;
    while i < len
        invariant
            0 <= i <= len,
            len == key@.len(),
            forall|j: int| 0 <= j < i ==> key@[j] != key_separator(),
        decreases len - i,
    {
        if key.get_char(i) == '_' {
            let plugin = key.substring_char(0, i);
            let instance = key.substring_char(i + 1, len);
            proof {
                assert(key@ =~= plugin@ + seq![key_separator()] + instance@);
            }
            return Some((plugin.to_owned(), instance.to_owned()));
        }
        i = i + 1;
    }
    None
}

/// Joins a plugin name and an instance id into a source key.
pub fn join_key(plugin: &str, instance: &str) -> (r: String)
    ensures
        r@ == plugin@ + seq![key_separator()] + instance@,
{
    let mut out = plugin.to_owned();
    out.append("_");
    proof {
        reveal_strlit("_");
        assert(out@ =~= plugin@ + seq![key_separator()]);
    }
    out.append(instance);
    proof {
        assert(out@ =~= plugin@ + seq![key_separator()] + instance@);
    }
    out
}

/// Does `key` name an instance of the plugin called `plugin`?
pub fn key_belongs_to(key: &str, plugin: &str) -> (r: bool)
    ensures
        r == key_of_plugin(key@, plugin@),
{
    let key_len: usize = key.unicode_len();
    let plugin_len: usize = plugin.unicode_len();
    if key_len <= plugin_len {
        return false;
    }
    if key.get_char(plugin_len) != '_' {
        return false;
    }
    let mut i: usize = 0;
    while i < plugin_len
        invariant
            0 <= i <= plugin_len,
            plugin_len == plugin@.len(),
            key_len == key@.len(),
            key_len > plugin_len,
            key@[plugin_len as int] == key_separator(),
            forall|j: int| 0 <= j < i ==> key@[j] == plugin@[j],
        decreases plugin_len - i,
    {
        if key.get_char(i) != plugin.get_char(i) {
            assert(key@.subrange(0, plugin@.len() as int)[i as int] != plugin@[i as int]);
            return false;
        }
        i = i + 1;
    }
    proof {
        assert(key@.subrange(0, plugin@.len() as int) =~= plugin@);
    }
    true
}

/// A key split and rejoined is the same key; the law behind treating
/// `(plugin, instance)` pairs and well-formed keys interchangeably.
pub proof fn lemma_split_join(key: Seq<char>, plugin: Seq<char>, instance: Seq<char>)
    requires
        splits_key(key, plugin, instance),
    ensures
        key == plugin + seq![key_separator()] + instance,
        key_of_plugin(key, plugin),
{
    assert(key.subrange(0, plugin.len() as int) =~= plugin);
}

} // verus!
