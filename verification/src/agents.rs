//! Reading the agent table out of `items_game.txt`, and naming model files.

use std::collections::HashMap;
use vstd::prelude::*;
use vstd::utf8::encode_utf8;
use vstd::string::StringSliceAdditionalSpecFns;
use vstd::string::StringExecFns;
use vstd::std_specs::iter::IteratorSpec;
use crate::keyvalues::{parse, spec_parse, value_view, pairs_view, KvValue, Value};
use crate::text::{
    bytes_contains, bytes_starts_with, contains_bytes, has_prefix, parse_u16, spec_parse_u16,
    str_eq,
};

verus! {

/// The mesh a Terrorist falls back to when their agent has no entry.
pub const FALLBACK_AGENT_T: &'static str = "tm_phoenix";

/// The mesh a Counter-Terrorist falls back to when their agent has no entry.
pub const FALLBACK_AGENT_CT: &'static str = "ctm_fbi";

/// Name for what `Path::file_stem` gives for a path: the last component
/// without its extension, or `None` when the path has no file name.
pub uninterp spec fn path_file_stem(path: Seq<char>) -> Option<Seq<char>>;

/// Calls `Path::new(path).file_stem()` and converts the result to text.
/// Trusted: the result is `path_file_stem` of the path. The rules for
/// components and dots that std applies are not written out here.
#[verifier::external_body]
pub(crate) fn file_stem(path: &str) -> (r: Option<String>)
    ensures
        match r {
            Some(s) => path_file_stem(path@) == Some(s@),
            None => path_file_stem(path@).is_none(),
        },
{
    std::path::Path::new(path).file_stem().and_then(|s| s.to_str()).map(|s| s.to_string())
}

/// Name for what `Path::file_name` gives for a path: its last component, or
/// `None` when the path ends in `..` or is a root.
pub uninterp spec fn path_file_name(path: Seq<char>) -> Option<Seq<char>>;

/// Calls `Path::new(path).file_name()` and converts the result to text.
/// Trusted: the result is `path_file_name` of the path, and being the final
/// component of the path it holds no `/` separator; the rules std applies to
/// components are not written out here.
#[verifier::external_body]
pub(crate) fn file_name(path: &str) -> (r: Option<String>)
    ensures
        match r {
            Some(s) => path_file_name(path@) == Some(s@) && !s@.contains('/'),
            None => path_file_name(path@).is_none(),
        },
{
    std::path::Path::new(path).file_name().and_then(|s| s.to_str()).map(|s| s.to_string())
}

/// The stem of a model path, or the Counter-Terrorist fallback when it has
/// none.
pub fn model_stem(model_path: &str) -> (r: String)
    ensures
        r@ == match path_file_stem(model_path@) {
            Some(s) => s,
            None => FALLBACK_AGENT_CT@,
        },
{
    match file_stem(model_path) {
        Some(s) => s,
        None => FALLBACK_AGENT_CT.to_string(),
    }
}

/// The value of the first pair whose key is `key`.
pub open spec fn first_value(pairs: Seq<(Seq<char>, KvValue)>, key: Seq<char>) -> Option<KvValue>
    decreases pairs.len(),
{
    if pairs.len() == 0 {
        None
    } else if pairs[0].0 == key {
        Some(pairs[0].1)
    } else {
        first_value(pairs.drop_first(), key)
    }
}

/// An actual agent character model: under `agents/models/`, and not one of
/// the shared arm or glove meshes.
pub open spec fn is_agent_model(model: Seq<char>) -> bool {
    &&& has_prefix(encode_utf8(model), encode_utf8("agents/models/"@))
    &&& !contains_bytes(encode_utf8(model), encode_utf8("/shared/"@))
}

/// The table entry one item gives: its numeric def_index and its
/// `model_player`, when the key parses as a `u16`, the item is a block,
/// its first `model_player` is a string, and that string is an agent model.
pub open spec fn agent_entry(def_index: Seq<char>, item: KvValue) -> Option<(u16, Seq<char>)> {
    match spec_parse_u16(encode_utf8(def_index)) {
        Some(n) => match item {
            KvValue::Block(fields) => match first_value(fields, "model_player"@) {
                Some(KvValue::Str(m)) => if is_agent_model(m) {
                    Some((n, m))
                } else {
                    None
                },
                _ => None,
            },
            KvValue::Str(_) => None,
        },
        None => None,
    }
}

/// `m` with the entries of one `items` block inserted in order.
pub open spec fn insert_entries(m: Map<u16, Seq<char>>, entries: Seq<(Seq<char>, KvValue)>) -> Map<
    u16,
    Seq<char>,
>
    decreases entries.len(),
{
    if entries.len() == 0 {
        m
    } else {
        let prev = insert_entries(m, entries.drop_last());
        match agent_entry(entries.last().0, entries.last().1) {
            Some((k, v)) => prev.insert(k, v),
            None => prev,
        }
    }
}

/// The table built from the pairs of `items_game`: every `items` block, in
/// order, later entries replacing earlier ones with the same def_index.
pub open spec fn items_table(pairs: Seq<(Seq<char>, KvValue)>) -> Map<u16, Seq<char>>
    decreases pairs.len(),
{
    if pairs.len() == 0 {
        Map::empty()
    } else {
        let prev = items_table(pairs.drop_last());
        if pairs.last().0 == "items"@ {
            match pairs.last().1 {
                KvValue::Block(entries) => insert_entries(prev, entries),
                KvValue::Str(_) => prev,
            }
        } else {
            prev
        }
    }
}

/// The agent table of an `items_game.txt` text: empty unless its first
/// `items_game` pair holds a block.
pub open spec fn spec_agent_table(text: Seq<u8>) -> Map<u16, Seq<char>> {
    match first_value(spec_parse(text), "items_game"@) {
        Some(KvValue::Block(pairs)) => items_table(pairs),
        _ => Map::empty(),
    }
}

/// The model of a def_index table.
pub open spec fn table_view(m: Map<u16, String>) -> Map<u16, Seq<char>> {
    Map::new(|k: u16| m.dom().contains(k), |k: u16| m[k]@)
}

/// The first pair in `pairs` with the given key, with its index.
fn find_key<'a>(pairs: &'a [(String, Value)], key: &str) -> (r: Option<&'a Value>)
    ensures
        match r {
            Some(v) => first_value(pairs_view(pairs@), key@) == Some(value_view(*v)),
            None => first_value(pairs_view(pairs@), key@).is_none(),
        },
{
    let ghost pv = pairs_view(pairs@);
    proof {
        lemma_pairs_view_len(pairs@);
        assert(pv.skip(0) =~= pv);
    }
    let mut i: usize = 0;
    while i < pairs.len()
        invariant
            i <= pairs@.len(),
            pv == pairs_view(pairs@),
            pv.len() == pairs@.len(),
            first_value(pv, key@) == first_value(pv.skip(i as int), key@),
        decreases pairs@.len() - i,
    {
        proof {
            lemma_pairs_view_index(pairs@, i as int);
        }
        let ghost rest = pv.skip(i as int);
        assert(rest.drop_first() =~= pv.skip(i + 1));
        if str_eq(pairs[i].0.as_str(), key) {
            return Some(&pairs[i].1);
        }
        i = i + 1;
    }
    assert(pv.skip(i as int).len() == 0);
    None
}

/// Element `k` of the model of a pair list is the model of element `k`.
pub proof fn lemma_pairs_view_index(s: Seq<(String, Value)>, k: int)
    requires
        0 <= k < s.len(),
    ensures
        pairs_view(s).len() == s.len(),
        pairs_view(s)[k] == (s[k].0@, value_view(s[k].1)),
    decreases s.len(),
{
    lemma_pairs_view_len(s);
    if k < s.len() - 1 {
        lemma_pairs_view_index(s.drop_last(), k);
    }
}

/// The model of a pair list has its length.
pub proof fn lemma_pairs_view_len(s: Seq<(String, Value)>)
    ensures
        pairs_view(s).len() == s.len(),
    decreases s.len(),
{
    if s.len() > 0 {
        lemma_pairs_view_len(s.drop_last());
    }
}

/// Reads def_index -> `model_player` for every actual agent character
/// model in an `items_game.txt`, merging every `items` block.
pub fn parse_agent_table(items_game_text: &str) -> (table: HashMap<u16, String>)
    ensures
        table_view(table@) == spec_agent_table(items_game_text.spec_bytes()),
{
    let root = parse(items_game_text);
    let mut table: HashMap<u16, String> = HashMap::new();
    assert(table_view(table@) =~= Map::empty());
    let items_game = match find_key(root.as_slice(), "items_game") {
        Some(v) => match v.as_block() {
            Some(b) => b,
            None => {
                return table;
            },
        },
        None => {
            return table;
        },
    };
    let ghost ig = pairs_view(items_game@);
    proof {
        lemma_pairs_view_len(items_game@);
    }
    assert(spec_agent_table(items_game_text.spec_bytes()) == items_table(ig));
    let mut i: usize = 0;
    while i < items_game.len()
        invariant
            i <= items_game@.len(),
            ig == pairs_view(items_game@),
            ig.len() == items_game@.len(),
            table_view(table@) == items_table(ig.take(i as int)),
        decreases items_game@.len() - i,
    {
        proof {
            lemma_pairs_view_index(items_game@, i as int);
        }
        assert(ig.take(i + 1).drop_last() =~= ig.take(i as int));
        assert(ig.take(i + 1).last() == ig[i as int]);
        let key = &items_game[i].0;
        if str_eq(key.as_str(), "items") {
            if let Some(entries) = items_game[i].1.as_block() {
                let ghost ev = pairs_view(entries@);
                proof {
                    lemma_pairs_view_len(entries@);
                }
                let ghost start = table_view(table@);
                let mut j: usize = 0;
                while j < entries.len()
                    invariant
                        j <= entries@.len(),
                        ev == pairs_view(entries@),
                        ev.len() == entries@.len(),
                        table_view(table@) == insert_entries(start, ev.take(j as int)),
                    decreases entries@.len() - j,
                {
                    proof {
                        lemma_pairs_view_index(entries@, j as int);
                    }
                    assert(ev.take(j + 1).drop_last() =~= ev.take(j as int));
                    assert(ev.take(j + 1).last() == ev[j as int]);
                    let entry = agent_item(&entries[j].0, &entries[j].1);
                    if let Some((k, m)) = entry {
                        let ghost before = table@;
                        table.insert(k, m);
                        assert(table_view(table@) =~= table_view(before).insert(k, m@));
                    }
                    j = j + 1;
                }
                assert(ev.take(entries@.len() as int) =~= ev);
            }
        }
        i = i + 1;
    }
    assert(ig.take(items_game@.len() as int) =~= ig);
    table
}

/// The entry one item contributes, if any.
fn agent_item(def_index: &String, item: &Value) -> (r: Option<(u16, String)>)
    ensures
        match r {
            Some((k, m)) => agent_entry(def_index@, value_view(*item)) == Some((k, m@)),
            None => agent_entry(def_index@, value_view(*item)).is_none(),
        },
{
    let n = match parse_u16(def_index.as_str()) {
        Some(n) => n,
        None => {
            return None;
        },
    };
    let fields = match item.as_block() {
        Some(f) => f,
        None => {
            return None;
        },
    };
    let model = match find_key(fields, "model_player") {
        Some(v) => match v.as_str() {
            Some(m) => m,
            None => {
                return None;
            },
        },
        None => {
            return None;
        },
    };
    let mb = model.as_bytes();
    if bytes_starts_with(mb, "agents/models/".as_bytes()) && !bytes_contains(
        mb,
        "/shared/".as_bytes(),
    ) {
        Some((n, model.to_string()))
    } else {
        None
    }
}


/// The stem a model path gives, or the Counter-Terrorist fallback when it
/// has none (what `model_stem` returns).
pub open spec fn stem_or_fallback(model_path: Seq<char>) -> Seq<char> {
    match path_file_stem(model_path) {
        Some(s) => s,
        None => FALLBACK_AGENT_CT@,
    }
}

/// The index written after extraction: each def_index with the stem of its
/// model.
pub fn agent_index(table: &HashMap<u16, String>) -> (r: HashMap<u16, String>)
    ensures
        table_view(r@) == table_view(table@).map_values(|m: Seq<char>| stem_or_fallback(m)),
{
    let mut index: HashMap<u16, String> = HashMap::new();
    proof {
        vstd::std_specs::hash::axiom_spec_keys_iter(table);
    }
    let ghost keys = vstd::std_specs::hash::spec_keys_iter(table).remaining();
    assert(keys.unref().to_set() == table@.dom());
    for k in it: table.keys()
        invariant
            it.seq() == keys,
            keys.unref().to_set() == table@.dom(),
            index@.dom() == keys.unref().subrange(0, it.index() as int).to_set(),
            forall|d: u16| #[trigger] index@.contains_key(d) ==> index@[d]@ == stem_or_fallback(table@[d]@),
    {
        let ghost i0 = it.index();
        assert(*k == *keys[i0]);
        assert(table@.dom().contains(*k)) by {
            assert(keys.unref()[i0] == *k);
        }
        let model = table.get(k).unwrap();
        let stem = model_stem(model.as_str());
        index.insert(*k, stem);
        proof {
            let before = keys.unref().subrange(0, i0 as int);
            let after = keys.unref().subrange(0, i0 + 1);
            assert(after =~= before.push(*k));
            assert(after.to_set() =~= before.to_set().insert(*k)) by {
                vstd::seq_lib::seq_to_set_distributes_over_add(before, seq![*k]);
                assert(before + seq![*k] =~= after);
                assert(seq![*k].to_set() =~= set![*k]) by {
                    assert(seq![*k][0] == *k);
                }
            }
        }
    }
    proof {
        assert(keys.unref().subrange(0, keys.len() as int) =~= keys.unref());
    }
    assert(table_view(index@) =~= table_view(table@).map_values(|m: Seq<char>| stem_or_fallback(m)));
    index
}

/// The model paths of an agent table.
pub open spec fn table_models(t: Map<u16, Seq<char>>) -> Set<Seq<char>> {
    Set::new(|m: Seq<char>| exists|k: u16| t.contains_key(k) && t[k] == m)
}

/// The texts of a list of strings.
pub open spec fn texts_of(v: Seq<String>) -> Seq<Seq<char>> {
    v.map_values(|x: String| x@)
}

fn listed(v: &Vec<String>, s: &str) -> (r: bool)
    ensures
        r == texts_of(v@).contains(s@),
{
    let mut i: usize = 0;
    while i < v.len()
        invariant
            i <= v@.len(),
            forall|j: int| 0 <= j < i ==> v@[j]@ != s@,
        decreases v@.len() - i,
    {
        if str_eq(v[i].as_str(), s) {
            assert(texts_of(v@)[i as int] == s@);
            return true;
        }
        i += 1;
    }
    assert(!texts_of(v@).contains(s@)) by {
        if texts_of(v@).contains(s@) {
            let j = choose|j: int| 0 <= j < texts_of(v@).len() && texts_of(v@)[j] == s@;
            assert(v@[j]@ == s@);
        }
    }
    false
}

/// The models to extract for an agent table: each distinct model path once
/// (many item indices share a model); an empty table is an error.
pub fn agent_models(table: &HashMap<u16, String>) -> (r: Result<Vec<String>, String>)
    ensures
        r is Err <==> table@.len() == 0,
        r matches Err(e) ==> e@ == "no agent entries found in items_game.txt"@,
        r matches Ok(v) ==> texts_of(v@).no_duplicates() && texts_of(v@).to_set() == table_models(
            table_view(table@),
        ),
{
    if table.len() == 0 {
        return Err(String::from_str("no agent entries found in items_game.txt"));
    }
    let mut models: Vec<String> = Vec::new();
    proof {
        vstd::std_specs::hash::axiom_spec_keys_iter(table);
    }
    let ghost keys = vstd::std_specs::hash::spec_keys_iter(table).remaining();
    assert(keys.unref().to_set() == table@.dom());
    for k in it: table.keys()
        invariant
            it.seq() == keys,
            keys.unref().to_set() == table@.dom(),
            texts_of(models@).no_duplicates(),
            forall|m: Seq<char>|
                texts_of(models@).contains(m) <==> exists|j: int|
                    0 <= j < it.index() && #[trigger] table@[keys.unref()[j]]@ == m,
    {
        let ghost i0 = it.index();
        assert(*k == *keys[i0]);
        assert(keys.unref()[i0] == *k);
        let model = table.get(k).unwrap();
        let ghost before = texts_of(models@);
        if !listed(&models, model.as_str()) {
            models.push(model.clone());
            proof {
                assert(texts_of(models@) =~= before.push(model@));
                assert forall|a: int, b: int| 0 <= a < b < texts_of(models@).len() implies texts_of(models@)[a]
                    != texts_of(models@)[b] by {
                    if b == before.len() {
                        assert(before[a] == texts_of(models@)[a]);
                    } else {
                        assert(before[a] != before[b]);
                    }
                }
            }
        }
        proof {
            assert forall|m: Seq<char>|
                texts_of(models@).contains(m) <==> exists|j: int|
                    0 <= j < i0 + 1 && #[trigger] table@[keys.unref()[j]]@ == m by {
                if texts_of(models@).contains(m) {
                    if !before.contains(m) {
                        let q = choose|q: int| 0 <= q < texts_of(models@).len() && texts_of(models@)[q] == m;
                        assert(m == model@);
                        assert(table@[keys.unref()[i0 as int]]@ == m);
                    }
                }
                if exists|j: int| 0 <= j < i0 + 1 && #[trigger] table@[keys.unref()[j]]@ == m {
                    let j = choose|j: int| 0 <= j < i0 + 1 && #[trigger] table@[keys.unref()[j]]@ == m;
                    if j < i0 {
                        assert(before.contains(m));
                        let q = choose|q: int| 0 <= q < before.len() && before[q] == m;
                        assert(texts_of(models@)[q] == m);
                    } else {
                        assert(m == model@);
                        if before.contains(model@) {
                            let q = choose|q: int| 0 <= q < before.len() && before[q] == m;
                            assert(texts_of(models@)[q] == m);
                        } else {
                            assert(texts_of(models@)[texts_of(models@).len() - 1] == m);
                        }
                    }
                }
            }
        }
    }
    proof {
        let tv = table_view(table@);
        assert forall|m: Seq<char>| texts_of(models@).to_set().contains(m) == table_models(tv).contains(m) by {
            if texts_of(models@).contains(m) {
                let j = choose|j: int| 0 <= j < keys.len() && #[trigger] table@[keys.unref()[j]]@ == m;
                let key = keys.unref()[j];
                assert(keys.unref().to_set().contains(key));
                assert(tv.contains_key(key) && tv[key] == m);
            }
            if table_models(tv).contains(m) {
                let key = choose|key: u16| tv.contains_key(key) && tv[key] == m;
                assert(keys.unref().to_set().contains(key));
                let j = choose|j: int| 0 <= j < keys.unref().len() && keys.unref()[j] == key;
                assert(table@[keys.unref()[j]]@ == m);
            }
        }
        assert(texts_of(models@).to_set() =~= table_models(tv));
    }
    Ok(models)
}

/// The file an agent's mesh is written to: `player_model_{stem}.dlms`.
pub fn agent_mesh_file(stem: &str) -> (r: String)
    ensures
        r@ == "player_model_"@ + stem@ + ".dlms"@,
{
    String::from_str("player_model_").concat(stem).concat(".dlms")
}

/// The path of the compiled model inside the game's package: the model path
/// with `_c` appended.
pub fn compiled_model_path(model_path: &str) -> (r: String)
    ensures
        r@ == model_path@ + "_c"@,
{
    String::from_str(model_path).concat("_c")
}

/// Name for what `serde_json::from_str` makes of a text as an agent index
/// (a JSON object from item indices to model stems): the map, or `None`
/// where the text is not such an object.
pub uninterp spec fn parsed_agent_index(text: Seq<char>) -> Option<Map<u16, Seq<char>>>;

/// Calls `serde_json::from_str::<HashMap<u16, String>>`. Trusted: the result
/// is `parsed_agent_index` of the text.
#[verifier::external_body]
fn parse_agent_index_json(text: &str) -> (r: Option<HashMap<u16, String>>)
    ensures
        match r {
            Some(m) => parsed_agent_index(text@) == Some(table_view(m@)),
            None => parsed_agent_index(text@) is None,
        },
{
    serde_json::from_str(text).ok()
}

/// Calls `serde_json::to_string` on an agent index. Trusted: it succeeds
/// (integer keys are written as quoted decimal numbers and strings cannot
/// fail to serialise), and whatever order the map is walked in, the text
/// reads back with `serde_json::from_str` as the same map.
#[verifier::external_body]
fn agent_index_text(index: &HashMap<u16, String>) -> (r: Result<String, String>)
    ensures
        r is Ok,
        r matches Ok(t) ==> parsed_agent_index(t@) == Some(table_view(index@)),
{
    serde_json::to_string(index).map_err(|e| e.to_string())
}

/// The agent index stored as JSON text: the map it holds, or an empty index
/// where the text is not one.
pub fn agent_index_from_json(text: &str) -> (r: HashMap<u16, String>)
    ensures
        match parsed_agent_index(text@) {
            Some(m) => table_view(r@) == m,
            None => r@ == Map::<u16, String>::empty(),
        },
{
    match parse_agent_index_json(text) {
        Some(m) => m,
        None => HashMap::new(),
    }
}

/// The JSON text an agent index is stored as; read back with
/// `agent_index_from_json`, it gives the same index.
pub fn agent_index_json(index: &HashMap<u16, String>) -> (r: Result<String, String>)
    ensures
        r is Ok,
        r matches Ok(t) ==> parsed_agent_index(t@) == Some(table_view(index@)),
{
    agent_index_text(index)
}

} // verus!
