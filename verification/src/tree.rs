//! A structured-data tree of plain values: the library's own model of an
//! embedded JSON-shaped payload, so that lookups over it can be verified.
use vstd::prelude::*;

verus! {

/// One node of a parsed structured-data tree. Numbers keep the exact text
/// rendering the parser produced, so no precision is lost.
pub enum JsonNode {
    Null,
    Bool(bool),
    Num(String),
    Str(String),
    Arr(Vec<JsonNode>),
    Obj(Vec<(String, JsonNode)>),
}

/// The mathematical shape of a structured-data tree.
pub enum JsonVal {
    Null,
    Bool(bool),
    Num(Seq<char>),
    Str(Seq<char>),
    Arr(Seq<JsonVal>),
    Obj(Seq<(Seq<char>, JsonVal)>),
}

pub open spec fn node_view(n: JsonNode) -> JsonVal
    decreases n,
{
    match n {
        JsonNode::Null => JsonVal::Null,
        JsonNode::Bool(b) => JsonVal::Bool(b),
        JsonNode::Num(s) => JsonVal::Num(s@),
        JsonNode::Str(s) => JsonVal::Str(s@),
        JsonNode::Arr(v) => JsonVal::Arr(arr_view(v@)),
        JsonNode::Obj(v) => JsonVal::Obj(obj_view(v@)),
    }
}

pub open spec fn arr_view(s: Seq<JsonNode>) -> Seq<JsonVal>
    decreases s,
{
    if s.len() == 0 {
        Seq::empty()
    } else {
        seq![node_view(s[0])] + arr_view(s.drop_first())
    }
}

pub open spec fn obj_view(s: Seq<(String, JsonNode)>) -> Seq<(Seq<char>, JsonVal)>
    decreases s,
{
    if s.len() == 0 {
        Seq::empty()
    } else {
        seq![(s[0].0@, node_view(s[0].1))] + obj_view(s.drop_first())
    }
}

impl View for JsonNode {
    type V = JsonVal;

    open spec fn view(&self) -> JsonVal {
        node_view(*self)
    }
}

/// Random access into `arr_view`: it maps `node_view` over the elements.
pub proof fn lemma_arr_view(s: Seq<JsonNode>)
    ensures
        arr_view(s).len() == s.len(),
        forall|i: int| 0 <= i < s.len() ==> arr_view(s)[i] == node_view(s[i]),
    decreases s.len(),
{
    if s.len() > 0 {
        lemma_arr_view(s.drop_first());
    }
}

/// Random access into `obj_view`: it pairs each key's view with the view of
/// the value under it.
pub proof fn lemma_obj_view(s: Seq<(String, JsonNode)>)
    ensures
        obj_view(s).len() == s.len(),
        forall|i: int| 0 <= i < s.len() ==> obj_view(s)[i] == (s[i].0@, node_view(s[i].1)),
    decreases s.len(),
{
    if s.len() > 0 {
        lemma_obj_view(s.drop_first());
    }
}

/// One step of a path into the tree: an object key or an array position.
pub enum PathStep {
    Key(String),
    Idx(usize),
}

/// The mathematical content of a path step.
pub enum StepView {
    Key(Seq<char>),
    Idx(int),
}

impl View for PathStep {
    type V = StepView;

    open spec fn view(&self) -> StepView {
        match self {
            PathStep::Key(s) => StepView::Key(s@),
            PathStep::Idx(i) => StepView::Idx(*i as int),
        }
    }
}

/// The views of a sequence of path steps.
pub open spec fn steps_view(s: Seq<PathStep>) -> Seq<StepView> {
    s.map_values(|p: PathStep| p@)
}

/// The views of a sequence of paths.
pub open spec fn paths_view(s: Seq<Vec<PathStep>>) -> Seq<Seq<StepView>> {
    s.map_values(|v: Vec<PathStep>| steps_view(v@))
}

/// The views of a sequence of key strings.
pub open spec fn key_views(s: Seq<String>) -> Seq<Seq<char>> {
    s.map_values(|k: String| k@)
}

/// Value under the first entry of `o` whose key is `key`, if any.
pub open spec fn obj_lookup(o: Seq<(Seq<char>, JsonVal)>, key: Seq<char>) -> Option<JsonVal>
    decreases o.len(),
{
    if o.len() == 0 {
        None
    } else if o[0].0 == key {
        Some(o[0].1)
    } else {
        obj_lookup(o.drop_first(), key)
    }
}

/// Value under `key` when `v` is an object, else nothing.
pub open spec fn tree_get(v: JsonVal, key: Seq<char>) -> Option<JsonVal> {
    match v {
        JsonVal::Obj(o) => obj_lookup(o, key),
        _ => None,
    }
}

/// Descend a whole key path from `v`.
pub open spec fn tree_get_path(v: JsonVal, path: Seq<Seq<char>>) -> Option<JsonVal>
    decreases path.len(),
{
    if path.len() == 0 {
        Some(v)
    } else {
        match tree_get(v, path[0]) {
            Some(w) => tree_get_path(w, path.drop_first()),
            None => None,
        }
    }
}

proof fn lemma_obj_lookup_found(o: Seq<(Seq<char>, JsonVal)>, key: Seq<char>, i: int)
    requires
        0 <= i < o.len(),
        o[i].0 == key,
        forall|j: int| 0 <= j < i ==> o[j].0 != key,
    ensures
        obj_lookup(o, key) == Some(o[i].1),
    decreases i,
{
    if i > 0 {
        lemma_obj_lookup_found(o.drop_first(), key, i - 1);
    }
}

proof fn lemma_obj_lookup_none(o: Seq<(Seq<char>, JsonVal)>, key: Seq<char>)
    requires
        forall|j: int| 0 <= j < o.len() ==> o[j].0 != key,
    ensures
        obj_lookup(o, key) is None,
    decreases o.len(),
{
    if o.len() > 0 {
        lemma_obj_lookup_none(o.drop_first(), key);
    }
}

/// Find the value stored under `key` when `node` is an object.
pub fn get_key<'a>(node: &'a JsonNode, key: &str) -> (r: Option<&'a JsonNode>)
    ensures
        match r {
            Some(m) => tree_get(node@, key@) == Some(m@),
            None => tree_get(node@, key@) is None,
        },
{
    match node {
        JsonNode::Obj(entries) => {
            proof {
                lemma_obj_view(entries@);
            }
            let ghost o = obj_view(entries@);
            let mut j: usize = 0;
            while j < entries.len()
                invariant
                    node@ == JsonVal::Obj(o),
                    o == obj_view(entries@),
                    o.len() == entries@.len(),
                    forall|i: int| 0 <= i < o.len() ==> o[i] == (entries@[i].0@, node_view(
                        entries@[i].1,
                    )),
                    0 <= j <= entries@.len(),
                    forall|i: int| 0 <= i < j ==> o[i].0 != key@,
                decreases entries@.len() - j,
            {
                if crate::text::str_eq(entries[j].0.as_str(), key) {
                    proof {
                        lemma_obj_lookup_found(o, key@, j as int);
                    }
                    return Some(&entries[j].1);
                }
                j = j + 1;
            }
            proof {
                lemma_obj_lookup_none(o, key@);
            }
            None
        },
        _ => None,
    }
}

/// Descend the fixed key path `path` from `node`.
pub fn find_node<'a>(node: &'a JsonNode, path: &Vec<String>) -> (r: Option<&'a JsonNode>)
    ensures
        match r {
            Some(m) => tree_get_path(node@, key_views(path@)) == Some(m@),
            None => tree_get_path(node@, key_views(path@)) is None,
        },
{
    let ghost full = key_views(path@);
    proof {
        assert(full.skip(0) =~= full);
    }
    let mut cur: &JsonNode = node;
    let mut i: usize = 0;
    while i < path.len()
        invariant
            full == key_views(path@),
            full.len() == path@.len(),
            forall|k: int| 0 <= k < full.len() ==> full[k] == path@[k]@,
            0 <= i <= path@.len(),
            tree_get_path(node@, full) == tree_get_path(cur@, full.skip(i as int)),
        decreases path@.len() - i,
    {
        let ghost rest = full.skip(i as int);
        proof {
            assert(rest[0] == full[i as int]);
            assert(rest.drop_first() =~= full.skip(i as int + 1));
        }
        match get_key(cur, path[i].as_str()) {
            Some(next) => {
                cur = next;
            },
            None => {
                return None;
            },
        }
        i = i + 1;
    }
    proof {
        assert(full.skip(i as int) =~= Seq::<Seq<char>>::empty());
    }
    Some(cur)
}

/// Find the object at the end of the key path `path`: its entries, in order.
pub fn find_object<'a>(node: &'a JsonNode, path: &Vec<String>) -> (r: Option<
    &'a Vec<(String, JsonNode)>,
>)
    ensures
        match r {
            Some(entries) => tree_get_path(node@, key_views(path@)) == Some(
                JsonVal::Obj(obj_view(entries@)),
            ),
            None => tree_get_path(node@, key_views(path@)) matches Some(v) ==> !(v is Obj),
        },
{
    match find_node(node, path) {
        Some(target) => match target {
            JsonNode::Obj(entries) => Some(entries),
            _ => None,
        },
        None => None,
    }
}

/// Find the value stored under `key` in an entry list.
pub fn obj_entry<'a>(entries: &'a Vec<(String, JsonNode)>, key: &str) -> (r: Option<
    &'a JsonNode,
>)
    ensures
        match r {
            Some(m) => obj_lookup(obj_view(entries@), key@) == Some(m@),
            None => obj_lookup(obj_view(entries@), key@) is None,
        },
{
    proof {
        lemma_obj_view(entries@);
    }
    let ghost o = obj_view(entries@);
    let mut j: usize = 0;
    while j < entries.len()
        invariant
            o == obj_view(entries@),
            o.len() == entries@.len(),
            forall|i: int| 0 <= i < o.len() ==> o[i] == (entries@[i].0@, node_view(
                entries@[i].1,
            )),
            0 <= j <= entries@.len(),
            forall|i: int| 0 <= i < j ==> o[i].0 != key@,
        decreases entries@.len() - j,
    {
        if crate::text::str_eq(entries[j].0.as_str(), key) {
            proof {
                lemma_obj_lookup_found(o, key@, j as int);
            }
            return Some(&entries[j].1);
        }
        j = j + 1;
    }
    proof {
        lemma_obj_lookup_none(o, key@);
    }
    None
}

/// The string stored under `key` in the object entries `o`, if the entry
/// exists and holds a string.
pub open spec fn obj_string(o: Seq<(Seq<char>, JsonVal)>, key: Seq<char>) -> Option<Seq<char>> {
    match obj_lookup(o, key) {
        Some(JsonVal::Str(s)) => Some(s),
        _ => None,
    }
}

/// Find the string value stored under `key` in an entry list.
pub fn get_string_value<'a>(entries: &'a Vec<(String, JsonNode)>, key: &str) -> (r: Option<
    &'a String,
>)
    ensures
        match r {
            Some(s) => obj_string(obj_view(entries@), key@) == Some(s@),
            None => obj_string(obj_view(entries@), key@) is None,
        },
{
    proof {
        lemma_obj_view(entries@);
    }
    let ghost o = obj_view(entries@);
    let mut j: usize = 0;
    while j < entries.len()
        invariant
            o == obj_view(entries@),
            o.len() == entries@.len(),
            forall|i: int| 0 <= i < o.len() ==> o[i] == (entries@[i].0@, node_view(
                entries@[i].1,
            )),
            0 <= j <= entries@.len(),
            forall|i: int| 0 <= i < j ==> o[i].0 != key@,
        decreases entries@.len() - j,
    {
        if crate::text::str_eq(entries[j].0.as_str(), key) {
            proof {
                lemma_obj_lookup_found(o, key@, j as int);
            }
            match &entries[j].1 {
                JsonNode::Str(s) => {
                    return Some(s);
                },
                _ => {
                    return None;
                },
            }
        }
        j = j + 1;
    }
    proof {
        lemma_obj_lookup_none(o, key@);
    }
    None
}

/// One step into `v`: an object key or an array position.
pub open spec fn tree_step(v: JsonVal, step: StepView) -> Option<JsonVal> {
    match step {
        StepView::Key(k) => tree_get(v, k),
        StepView::Idx(i) => match v {
            JsonVal::Arr(a) => if 0 <= i < a.len() {
                Some(a[i])
            } else {
                None
            },
            _ => None,
        },
    }
}

/// Follow a whole step path from `v`.
pub open spec fn tree_resolve(v: JsonVal, path: Seq<StepView>) -> Option<JsonVal>
    decreases path.len(),
{
    if path.len() == 0 {
        Some(v)
    } else {
        match tree_step(v, path[0]) {
            Some(w) => tree_resolve(w, path.drop_first()),
            None => None,
        }
    }
}

/// Follow the step path `path` from `node`.
pub fn resolve_path<'a>(node: &'a JsonNode, path: &Vec<PathStep>) -> (r: Option<&'a JsonNode>)
    ensures
        match r {
            Some(m) => tree_resolve(node@, steps_view(path@)) == Some(m@),
            None => tree_resolve(node@, steps_view(path@)) is None,
        },
{
    let ghost full = steps_view(path@);
    proof {
        assert(full.skip(0) =~= full);
    }
    let mut cur: &JsonNode = node;
    let mut i: usize = 0;
    while i < path.len()
        invariant
            full == steps_view(path@),
            full.len() == path@.len(),
            forall|k: int| 0 <= k < full.len() ==> full[k] == path@[k]@,
            0 <= i <= path@.len(),
            tree_resolve(node@, full) == tree_resolve(cur@, full.skip(i as int)),
        decreases path@.len() - i,
    {
        let ghost rest = full.skip(i as int);
        proof {
            assert(rest[0] == full[i as int]);
            assert(rest.drop_first() =~= full.skip(i as int + 1));
        }
        match &path[i] {
            PathStep::Key(k) => {
                match get_key(cur, k.as_str()) {
                    Some(next) => {
                        cur = next;
                    },
                    None => {
                        return None;
                    },
                }
            },
            PathStep::Idx(n) => {
                match cur {
                    JsonNode::Arr(items) => {
                        proof {
                            lemma_arr_view(items@);
                        }
                        if *n < items.len() {
                            cur = &items[*n];
                        } else {
                            return None;
                        }
                    },
                    _ => {
                        return None;
                    },
                }
            },
        }
        i = i + 1;
    }
    proof {
        assert(full.skip(i as int) =~= Seq::<StepView>::empty());
    }
    Some(cur)
}

/// The object entries `o` contain every key of `keys`.
pub open spec fn has_all_keys(o: Seq<(Seq<char>, JsonVal)>, keys: Seq<Seq<char>>) -> bool {
    forall|i: int| 0 <= i < keys.len() ==> obj_lookup(o, #[trigger] keys[i]) is Some
}

/// Every path, in depth-first document order, to an object of `v` that
/// contains all of `keys`. `prefix` is the path that leads to `v` itself.
pub open spec fn collect_paths(v: JsonVal, keys: Seq<Seq<char>>, prefix: Seq<StepView>) -> Seq<
    Seq<StepView>,
>
    decreases v,
{
    match v {
        JsonVal::Obj(o) => (if has_all_keys(o, keys) {
            seq![prefix]
        } else {
            Seq::empty()
        }) + collect_obj(o, keys, prefix),
        JsonVal::Arr(a) => collect_arr(a, keys, prefix, 0),
        _ => Seq::empty(),
    }
}

pub open spec fn collect_obj(
    o: Seq<(Seq<char>, JsonVal)>,
    keys: Seq<Seq<char>>,
    prefix: Seq<StepView>,
) -> Seq<Seq<StepView>>
    decreases o,
{
    if o.len() == 0 {
        Seq::empty()
    } else {
        collect_paths(o[0].1, keys, prefix.push(StepView::Key(o[0].0))) + collect_obj(
            o.drop_first(),
            keys,
            prefix,
        )
    }
}

pub open spec fn collect_arr(
    a: Seq<JsonVal>,
    keys: Seq<Seq<char>>,
    prefix: Seq<StepView>,
    base: int,
) -> Seq<Seq<StepView>>
    decreases a,
{
    if a.len() == 0 {
        Seq::empty()
    } else {
        collect_paths(a[0], keys, prefix.push(StepView::Idx(base))) + collect_arr(
            a.drop_first(),
            keys,
            prefix,
            base + 1,
        )
    }
}

proof fn lemma_collect_obj_skip(
    o: Seq<(Seq<char>, JsonVal)>,
    keys: Seq<Seq<char>>,
    prefix: Seq<StepView>,
    i: int,
)
    requires
        0 <= i < o.len(),
    ensures
        collect_obj(o.skip(i), keys, prefix) == collect_paths(
            o[i].1,
            keys,
            prefix.push(StepView::Key(o[i].0)),
        ) + collect_obj(o.skip(i + 1), keys, prefix),
{
    assert(o.skip(i)[0] == o[i]);
    assert(o.skip(i).drop_first() =~= o.skip(i + 1));
}

proof fn lemma_collect_arr_skip(
    a: Seq<JsonVal>,
    keys: Seq<Seq<char>>,
    prefix: Seq<StepView>,
    i: int,
)
    requires
        0 <= i < a.len(),
    ensures
        collect_arr(a.skip(i), keys, prefix, i) == collect_paths(
            a[i],
            keys,
            prefix.push(StepView::Idx(i)),
        ) + collect_arr(a.skip(i + 1), keys, prefix, i + 1),
{
    assert(a.skip(i)[0] == a[i]);
    assert(a.skip(i).drop_first() =~= a.skip(i + 1));
}

/// Whether the entry list holds an entry named `key`.
fn obj_contains_key(entries: &Vec<(String, JsonNode)>, key: &str) -> (r: bool)
    ensures
        r == (obj_lookup(obj_view(entries@), key@) is Some),
{
    proof {
        lemma_obj_view(entries@);
    }
    let ghost o = obj_view(entries@);
    let mut j: usize = 0;
    while j < entries.len()
        invariant
            o == obj_view(entries@),
            o.len() == entries@.len(),
            forall|i: int| 0 <= i < o.len() ==> o[i] == (entries@[i].0@, node_view(
                entries@[i].1,
            )),
            0 <= j <= entries@.len(),
            forall|i: int| 0 <= i < j ==> o[i].0 != key@,
        decreases entries@.len() - j,
    {
        if crate::text::str_eq(entries[j].0.as_str(), key) {
            proof {
                lemma_obj_lookup_found(o, key@, j as int);
            }
            return true;
        }
        j = j + 1;
    }
    proof {
        lemma_obj_lookup_none(o, key@);
    }
    false
}

/// Whether the entry list holds every requested key.
fn obj_has_all_keys(entries: &Vec<(String, JsonNode)>, keys: &Vec<String>) -> (r: bool)
    ensures
        r == has_all_keys(obj_view(entries@), key_views(keys@)),
{
    let ghost kv = key_views(keys@);
    let mut i: usize = 0;
    while i < keys.len()
        invariant
            kv == key_views(keys@),
            kv.len() == keys@.len(),
            forall|k: int| 0 <= k < kv.len() ==> kv[k] == keys@[k]@,
            0 <= i <= keys@.len(),
            forall|k: int| 0 <= k < i ==> obj_lookup(obj_view(entries@), #[trigger] kv[k])
                is Some,
        decreases keys@.len() - i,
    {
        if !obj_contains_key(entries, keys[i].as_str()) {
            proof {
                assert(kv[i as int] == keys@[i as int]@);
                assert(!has_all_keys(obj_view(entries@), kv));
            }
            return false;
        }
        i = i + 1;
    }
    proof {
        assert(has_all_keys(obj_view(entries@), kv));
    }
    true
}

/// A copy of a path, step for step.
fn clone_path(p: &Vec<PathStep>) -> (r: Vec<PathStep>)
    ensures
        r@ == p@,
{
    let mut out: Vec<PathStep> = Vec::new();
    let mut i: usize = 0;
    while i < p.len()
        invariant
            0 <= i <= p@.len(),
            out@ == p@.subrange(0, i as int),
        decreases p@.len() - i,
    {
        let step = match &p[i] {
            PathStep::Key(s) => PathStep::Key(s.clone()),
            PathStep::Idx(n) => PathStep::Idx(*n),
        };
        out.push(step);
        proof {
            assert(out@ =~= p@.subrange(0, i + 1));
        }
        i = i + 1;
    }
    proof {
        assert(out@ =~= p@);
    }
    out
}

/// Walk the whole tree and record, in depth-first document order, the path
/// of every object that contains all of `keys_to_find`. `current_path` is
/// the path that leads to `value`; it is restored before returning.
pub fn find_object_paths(
    value: &JsonNode,
    keys_to_find: &Vec<String>,
    current_path: &mut Vec<PathStep>,
    found_paths: &mut Vec<Vec<PathStep>>,
)
    ensures
        final(current_path)@ == old(current_path)@,
        paths_view(final(found_paths)@) == paths_view(old(found_paths)@) + collect_paths(
            value@,
            key_views(keys_to_find@),
            steps_view(old(current_path)@),
        ),
    decreases *value,
{
    let ghost keys = key_views(keys_to_find@);
    let ghost prefix = steps_view(current_path@);
    let ghost found0 = paths_view(found_paths@);
    let ghost cp0 = current_path@;
    match value {
        JsonNode::Obj(entries) => {
            proof {
                lemma_obj_view(entries@);
            }
            let ghost o = obj_view(entries@);
            let ghost front: Seq<Seq<StepView>> = if has_all_keys(o, keys) {
                seq![prefix]
            } else {
                Seq::<Seq<StepView>>::empty()
            };
            if obj_has_all_keys(entries, keys_to_find) {
                let copy = clone_path(current_path);
                let ghost old_fp = found_paths@;
                found_paths.push(copy);
                proof {
                    assert(paths_view(found_paths@) =~= paths_view(old_fp).push(prefix));
                    assert(paths_view(found_paths@) =~= found0 + front);
                }
            } else {
                proof {
                    assert(paths_view(found_paths@) =~= found0 + front);
                }
            }
            proof {
                assert(o.skip(0) =~= o);
            }
            let mut j: usize = 0;
            while j < entries.len()
                invariant
                    *value == JsonNode::Obj(*entries),
                    value@ == JsonVal::Obj(o),
                    o == obj_view(entries@),
                    o.len() == entries@.len(),
                    forall|i: int| 0 <= i < o.len() ==> o[i] == (entries@[i].0@, node_view(
                        entries@[i].1,
                    )),
                    keys == key_views(keys_to_find@),
                    0 <= j <= entries@.len(),
                    current_path@ == cp0,
                    steps_view(current_path@) == prefix,
                    paths_view(found_paths@) + collect_obj(o.skip(j as int), keys, prefix)
                        == found0 + front + collect_obj(o, keys, prefix),
                decreases entries@.len() - j,
            {
                proof {
                    let vv = *value;
                    assert(vv->Obj_0 == *entries);
                    assert(decreases_to!(vv => vv->Obj_0));
                    assert(decreases_to!(*entries => entries@));
                    assert(decreases_to!(entries@ => entries@[j as int]));
                    assert(decreases_to!(entries@[j as int] => entries@[j as int].1));
                    assert(decreases_to!(*value => entries@[j as int].1));
                }
                let ghost before = paths_view(found_paths@);
                let ghost old_cp = current_path@;
                current_path.push(PathStep::Key(entries[j].0.clone()));
                proof {
                    assert(steps_view(current_path@) =~= prefix.push(
                        StepView::Key(o[j as int].0),
                    ));
                }
                find_object_paths(&entries[j].1, keys_to_find, current_path, found_paths);
                let _ = current_path.pop();
                proof {
                    assert(current_path@ =~= old_cp);
                    lemma_collect_obj_skip(o, keys, prefix, j as int);
                    assert(paths_view(found_paths@) + collect_obj(o.skip(j + 1), keys, prefix)
                        =~= found0 + front + collect_obj(o, keys, prefix));
                }
                j = j + 1;
            }
            proof {
                assert(o.skip(entries@.len() as int) =~= Seq::<(Seq<char>, JsonVal)>::empty());
                assert(paths_view(found_paths@) =~= found0 + collect_paths(value@, keys, prefix));
            }
        },
        JsonNode::Arr(items) => {
            proof {
                lemma_arr_view(items@);
            }
            let ghost a = arr_view(items@);
            proof {
                assert(a.skip(0) =~= a);
            }
            let mut j: usize = 0;
            while j < items.len()
                invariant
                    *value == JsonNode::Arr(*items),
                    value@ == JsonVal::Arr(a),
                    a == arr_view(items@),
                    a.len() == items@.len(),
                    forall|i: int| 0 <= i < a.len() ==> a[i] == node_view(items@[i]),
                    keys == key_views(keys_to_find@),
                    0 <= j <= items@.len(),
                    current_path@ == cp0,
                    steps_view(current_path@) == prefix,
                    paths_view(found_paths@) + collect_arr(a.skip(j as int), keys, prefix, j as int)
                        == found0 + collect_arr(a, keys, prefix, 0),
                decreases items@.len() - j,
            {
                proof {
                    let vv = *value;
                    assert(vv->Arr_0 == *items);
                    assert(decreases_to!(vv => vv->Arr_0));
                    assert(decreases_to!(*items => items@));
                    assert(decreases_to!(items@ => items@[j as int]));
                    assert(decreases_to!(*value => items@[j as int]));
                }
                let ghost old_cp = current_path@;
                current_path.push(PathStep::Idx(j));
                proof {
                    assert(steps_view(current_path@) =~= prefix.push(StepView::Idx(j as int)));
                }
                find_object_paths(&items[j], keys_to_find, current_path, found_paths);
                let _ = current_path.pop();
                proof {
                    assert(current_path@ =~= old_cp);
                    lemma_collect_arr_skip(a, keys, prefix, j as int);
                    assert(paths_view(found_paths@) + collect_arr(a.skip(j + 1), keys, prefix, j + 1)
                        =~= found0 + collect_arr(a, keys, prefix, 0));
                }
                j = j + 1;
            }
            proof {
                assert(a.skip(items@.len() as int) =~= Seq::<JsonVal>::empty());
                assert(paths_view(found_paths@) =~= found0 + collect_paths(value@, keys, prefix));
            }
        },
        _ => {
            proof {
                assert(collect_paths(value@, keys, prefix) =~= Seq::<Seq<StepView>>::empty());
                assert(paths_view(found_paths@) =~= found0 + collect_paths(value@, keys, prefix));
            }
        },
    }
}

} // verus!
