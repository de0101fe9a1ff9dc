//! The custom-field resolution and caching subsystem.
//!
//! Per project, the tracker exposes a catalog of custom fields.  From one
//! catalog fetch two maps are built: display name to wire key (for creation
//! payloads) and display name to JQL clause token (for search queries).
//! Both are persisted as JSON object files; a later run that finds both
//! files readable uses them and performs no fetch.

use vstd::prelude::*;

use crate::chars::{
    chars_to_string, spec_starts_with, starts_with_chars, str_to_chars,
};
use crate::errors::JiraError;
use crate::field_map::{
    from_pairs, has_key, lookup, spec_insert, unique_keys, FieldMap, lemma_from_pairs_identity,
    lemma_insert_lookup,
};
use crate::json::{arr_model, render, wf, JVal, JsonValue, obj_model, to_json_text};
use crate::json_parse::{from_json_text, spec_parse};
use crate::json_props::lemma_render_parse_round_trip;

verus! {

/// The wire-key prefix of a custom field, `customfield_`.
pub open spec fn cf_prefix() -> Seq<char> {
    seq!['c', 'u', 's', 't', 'o', 'm', 'f', 'i', 'e', 'l', 'd', '_']
}

/// The JQL clause token derived from a wire key: `cf[` plus the characters
/// after the `customfield_` prefix, plus `]`.
pub open spec fn clause_of(wire: Seq<char>) -> Seq<char> {
    seq!['c', 'f', '['] + wire.skip(12) + seq![']']
}

/// The JSON value a field map is persisted as: an object binding each
/// display name to its identifier string, in map order.
pub open spec fn field_map_jval(ps: Seq<(Seq<char>, Seq<char>)>) -> JVal {
    JVal::JObj(Seq::new(ps.len(), |i: int| (ps[i].0, JVal::JStr(ps[i].1))))
}

/// Whether every member of an object holds a string.
pub open spec fn obj_strings(members: Seq<(Seq<char>, JVal)>) -> bool {
    forall|i: int| 0 <= i < members.len() ==> members[i].1 is JStr
}

/// The members of an all-string object as plain pairs.
pub open spec fn obj_string_pairs(members: Seq<(Seq<char>, JVal)>) -> Seq<
    (Seq<char>, Seq<char>),
> {
    Seq::new(members.len(), |i: int| (members[i].0, members[i].1->JStr_0))
}

/// What a cache file's text denotes: the field map read from it, if the
/// text is a JSON object of strings.
pub open spec fn map_file(s: Seq<char>) -> Option<Seq<(Seq<char>, Seq<char>)>> {
    match spec_parse(s) {
        Some(JVal::JObj(members)) => if obj_strings(members) {
            Some(from_pairs(obj_string_pairs(members)))
        } else {
            None
        },
        _ => None,
    }
}

/// Serializes a field map to the exact text of its cache file.
pub fn render_field_map(m: &FieldMap) -> (r: String)
    ensures
        r@ == render(field_map_jval(m@)),
{
    let n = m.len();
    let mut pairs: Vec<(String, JsonValue)> = Vec::new();
    let mut i: usize = 0;
    while i < n
        invariant
            n == m@.len(),
            i <= n,
            obj_model(pairs@) =~= Seq::new(i as nat, |k: int| (m@[k].0, JVal::JStr(m@[k].1))),
        decreases n - i,
    {
        let (k, v) = m.entry_at(i);
        let ghost oldp = pairs@;
        pairs.push((k, JsonValue::Str(v)));
        proof {
            assert(obj_model(oldp).len() == oldp.len());
            assert(oldp.len() == i as int);
            assert(pairs@.len() == i + 1);
            assert forall|t: int| 0 <= t <= i implies obj_model(pairs@)[t] == (
                m@[t].0,
                JVal::JStr(m@[t].1),
            ) by {
                if t < i {
                    assert(pairs@[t] == oldp[t]);
                    assert(obj_model(oldp)[t] == (m@[t].0, JVal::JStr(m@[t].1)));
                    assert(obj_model(oldp)[t] == (oldp[t].0@, oldp[t].1@));
                    assert(obj_model(pairs@)[t] == (pairs@[t].0@, pairs@[t].1@));
                } else {
                    assert(pairs@[t].0@ == m@[t].0);
                    assert(pairs@[t].1@ == JVal::JStr(m@[t].1));
                }
            }
        }
        i = i + 1;
        proof {
            assert(obj_model(pairs@) =~= Seq::new(
                i as nat,
                |k: int| (m@[k].0, JVal::JStr(m@[k].1)),
            ));
        }
    }
    let doc = JsonValue::Obj(pairs);
    proof {
        assert(doc@ == field_map_jval(m@)) by {
            assert(obj_model(pairs@) =~~= Seq::new(
                m@.len(),
                |k: int| (m@[k].0, JVal::JStr(m@[k].1)),
            ));
        }
    }
    to_json_text(&doc)
}

/// Reads a field map back from a cache file's text.
pub fn parse_field_map(s: &str) -> (r: Result<FieldMap, JiraError>)
    ensures
        match r {
            Ok(m) => map_file(s@) == Some(m@) && m.wf(),
            Err(e) => map_file(s@) is None && e matches JiraError::Deserialization,
        },
{
    let doc = match from_json_text(s) {
        Ok(doc) => doc,
        Err(_) => {
            return Err(JiraError::Deserialization);
        },
    };
    proof {
        assert(spec_parse(s@) == Some(doc@));
    }
    match doc {
        JsonValue::Obj(pairs) => {
            let ghost members = obj_model(pairs@);
            proof {
                assert(spec_parse(s@) == Some(JVal::JObj(members)));
            }
            let mut m = FieldMap::new();
            let n = pairs.len();
            let mut i: usize = 0;
            while i < n
                invariant
                    n == pairs@.len(),
                    members == obj_model(pairs@),
                    spec_parse(s@) == Some(JVal::JObj(members)),
                    i <= n,
                    m.wf(),
                    forall|k: int| 0 <= k < i ==> members[k].1 is JStr,
                    m@ == from_pairs(obj_string_pairs(members.subrange(0, i as int))),
                decreases n - i,
            {
                let ghost prefix = obj_string_pairs(members.subrange(0, i as int));
                match &pairs[i].1 {
                    JsonValue::Str(v) => {
                        m.insert(pairs[i].0.clone(), v.clone());
                        proof {
                            assert(members[i as int].1 is JStr);
                            assert(obj_string_pairs(members.subrange(0, i + 1int)).drop_last()
                                =~= prefix);
                            assert(obj_string_pairs(members.subrange(0, i + 1int)).last()
                                == (members[i as int].0, members[i as int].1->JStr_0));
                            assert(m@ == from_pairs(
                                obj_string_pairs(members.subrange(0, i + 1int)),
                            ));
                        }
                    },
                    _ => {
                        proof {
                            assert(members[i as int] == (pairs@[i as int].0@, pairs@[
                                i as int].1@));
                            assert(!(members[i as int].1 is JStr));
                            assert(!obj_strings(members));
                        }
                        return Err(JiraError::Deserialization);
                    },
                }
                i = i + 1;
            }
            proof {
                assert(members.subrange(0, n as int) =~= members);
            }
            Ok(m)
        },
        _ => Err(JiraError::Deserialization),
    }
}

/// The cache-hit property: a map persisted by [`render_field_map`] is read
/// back unchanged, so a resolution that finds the two files written by an
/// earlier fetch returns their maps and needs no second fetch.
pub proof fn lemma_cache_file_round_trip(ps: Seq<(Seq<char>, Seq<char>)>)
    requires
        unique_keys(ps),
    ensures
        map_file(render(field_map_jval(ps))) == Some(ps),
{
    let j = field_map_jval(ps);
    assert(wf(j)) by {
        assert(forall|i: int|
            0 <= i < j->JObj_0.len() ==> wf(#[trigger] j->JObj_0[i].1));
    }
    lemma_render_parse_round_trip(j);
    let members = j->JObj_0;
    assert(obj_strings(members));
    assert(obj_string_pairs(members) =~~= ps);
    lemma_from_pairs_identity(ps);
}

/// One custom field as the catalog describes it.
#[derive(Debug)]
pub struct CustomFields {
    /// The wire key, e.g. `customfield_10101`.
    pub id: String,
    /// The human display name.
    pub name: String,
    pub custom: Option<bool>,
    pub orderable: Option<bool>,
    pub navigable: Option<bool>,
    pub searchable: Option<bool>,
    pub clause_names: Vec<String>,
    pub schema: Option<Schema>,
}

/// The schema block of a catalog entry.
#[derive(Debug)]
pub struct Schema {
    pub issue_type: Option<String>,
    pub custom: Option<String>,
    pub custom_id: Option<i32>,
    pub items: Option<String>,
    pub system: Option<String>,
}

/// The `projects` key.
pub open spec fn projects_key() -> Seq<char> {
    seq!['p', 'r', 'o', 'j', 'e', 'c', 't', 's']
}

/// The `issuetypes` key.
pub open spec fn issuetypes_key() -> Seq<char> {
    seq!['i', 's', 's', 'u', 'e', 't', 'y', 'p', 'e', 's']
}

/// The `fields` key.
pub open spec fn fields_key() -> Seq<char> {
    seq!['f', 'i', 'e', 'l', 'd', 's']
}

/// The `name` key.
pub open spec fn name_key() -> Seq<char> {
    seq!['n', 'a', 'm', 'e']
}

/// The first value bound to `k` among an object's members.
pub open spec fn spec_obj_get(members: Seq<(Seq<char>, JVal)>, k: Seq<char>) -> Option<JVal>
    decreases members.len(),
{
    if members.len() == 0 {
        None
    } else if members[0].0 == k {
        Some(members[0].1)
    } else {
        spec_obj_get(members.drop_first(), k)
    }
}

/// The custom-field entries among the members of a `fields` object: the
/// pairs (wire key, display name) of the members whose key carries the
/// `customfield_` prefix.  A prefixed member without a string `name` makes
/// the whole response unusable.
pub open spec fn fields_catalog(members: Seq<(Seq<char>, JVal)>) -> Result<
    Seq<(Seq<char>, Seq<char>)>,
    JiraError,
>
    decreases members.len(),
{
    if members.len() == 0 {
        Ok(Seq::empty())
    } else {
        let k = members[0].0;
        let v = members[0].1;
        if spec_starts_with(k, cf_prefix()) {
            if v is JObj && (match spec_obj_get(v->JObj_0, name_key()) {
                Some(JVal::JStr(_)) => true,
                _ => false,
            }) {
                match fields_catalog(members.drop_first()) {
                    Err(e) => Err(e),
                    Ok(rest) => Ok(
                        seq![(k, spec_obj_get(v->JObj_0, name_key())->Some_0->JStr_0)] + rest,
                    ),
                }
            } else {
                Err(JiraError::RemoteFetch)
            }
        } else {
            fields_catalog(members.drop_first())
        }
    }
}

/// The catalog a create-metadata response denotes: the custom-field
/// entries of the first issue type of the first project.  A response with
/// no project or no issue type names an unknown project; any other
/// structural mismatch means the response cannot be used.
pub open spec fn spec_catalog(root: JVal) -> Result<Seq<(Seq<char>, Seq<char>)>, JiraError> {
    if !(root is JObj) {
        Err(JiraError::RemoteFetch)
    } else {
        match spec_obj_get(root->JObj_0, projects_key()) {
            Some(JVal::JArr(ps)) => if ps.len() == 0 {
                Err(JiraError::InvalidProject)
            } else if !(ps[0] is JObj) {
                Err(JiraError::RemoteFetch)
            } else {
                match spec_obj_get(ps[0]->JObj_0, issuetypes_key()) {
                    Some(JVal::JArr(its)) => if its.len() == 0 {
                        Err(JiraError::InvalidProject)
                    } else if !(its[0] is JObj) {
                        Err(JiraError::RemoteFetch)
                    } else {
                        match spec_obj_get(its[0]->JObj_0, fields_key()) {
                            Some(JVal::JObj(fs)) => fields_catalog(fs),
                            _ => Err(JiraError::RemoteFetch),
                        }
                    },
                    Some(_) => Err(JiraError::RemoteFetch),
                    None => Err(JiraError::InvalidProject),
                }
            },
            Some(_) => Err(JiraError::RemoteFetch),
            None => Err(JiraError::InvalidProject),
        }
    }
}

/// The pairs (wire key, display name) a vector of catalog entries stands
/// for.
pub open spec fn entries_model(es: Seq<CustomFields>) -> Seq<(Seq<char>, Seq<char>)> {
    Seq::new(es.len(), |i: int| (es[i].id@, es[i].name@))
}

/// The forward map of a catalog: display name to wire key, later entries
/// overriding earlier ones of the same name.
pub open spec fn forward_of(entries: Seq<(Seq<char>, Seq<char>)>) -> Seq<
    (Seq<char>, Seq<char>),
> {
    from_pairs(Seq::new(entries.len(), |i: int| (entries[i].1, entries[i].0)))
}

/// The reverse map of a catalog: display name to JQL clause token, in step
/// with the forward map.
pub open spec fn reverse_of(entries: Seq<(Seq<char>, Seq<char>)>) -> Seq<
    (Seq<char>, Seq<char>),
> {
    from_pairs(Seq::new(entries.len(), |i: int| (entries[i].1, clause_of(entries[i].0))))
}

/// Forward and reverse maps built from the same catalog are mutually
/// consistent: they bind exactly the same display names, and the clause
/// token bound to a name is derived from the wire key bound to it.
pub proof fn lemma_maps_mutually_consistent(entries: Seq<(Seq<char>, Seq<char>)>)
    ensures
        unique_keys(forward_of(entries)),
        unique_keys(reverse_of(entries)),
        forall|n: Seq<char>| has_key(forward_of(entries), n) <==> has_key(
            reverse_of(entries),
            n,
        ),
        forall|n: Seq<char>| #[trigger] lookup(forward_of(entries), n) is Some ==> lookup(
            reverse_of(entries),
            n,
        ) == Some(clause_of(lookup(forward_of(entries), n)->Some_0)),
    decreases entries.len(),
{
    let fpairs = Seq::new(entries.len(), |i: int| (entries[i].1, entries[i].0));
    let rpairs = Seq::new(entries.len(), |i: int| (entries[i].1, clause_of(entries[i].0)));
    if entries.len() == 0 {
        assert(forward_of(entries) =~= Seq::<(Seq<char>, Seq<char>)>::empty());
        assert(reverse_of(entries) =~= Seq::<(Seq<char>, Seq<char>)>::empty());
        assert forall|n: Seq<char>| !has_key(forward_of(entries), n) by {}
        assert forall|n: Seq<char>| !has_key(reverse_of(entries), n) by {}
    } else {
        let front = entries.drop_last();
        lemma_maps_mutually_consistent(front);
        let e = entries.last();
        let ffront = Seq::new(front.len(), |i: int| (front[i].1, front[i].0));
        let rfront = Seq::new(front.len(), |i: int| (front[i].1, clause_of(front[i].0)));
        assert(fpairs.drop_last() =~= ffront);
        assert(rpairs.drop_last() =~= rfront);
        assert(forward_of(entries) == spec_insert(forward_of(front), e.1, e.0)) by {
            assert(fpairs.last() == (e.1, e.0));
        }
        assert(reverse_of(entries) == spec_insert(reverse_of(front), e.1, clause_of(e.0))) by {
            assert(rpairs.last() == (e.1, clause_of(e.0)));
        }
        assert forall|n: Seq<char>| has_key(forward_of(entries), n) <==> has_key(
            reverse_of(entries),
            n,
        ) by {
            lemma_insert_lookup(forward_of(front), e.1, e.0, n);
            lemma_insert_lookup(reverse_of(front), e.1, clause_of(e.0), n);
        }
        assert forall|n: Seq<char>| #[trigger] lookup(forward_of(entries), n) is Some implies
            lookup(reverse_of(entries), n) == Some(
            clause_of(lookup(forward_of(entries), n)->Some_0),
        ) by {
            lemma_insert_lookup(forward_of(front), e.1, e.0, n);
            lemma_insert_lookup(reverse_of(front), e.1, clause_of(e.0), n);
        }
        lemma_insert_lookup(forward_of(front), e.1, e.0, e.1);
        lemma_insert_lookup(reverse_of(front), e.1, clause_of(e.0), e.1);
    }
}

/// Prepends entries to the list part of a catalog extraction.
pub open spec fn cat_prepend(
    pre: Seq<(Seq<char>, Seq<char>)>,
    o: Result<Seq<(Seq<char>, Seq<char>)>, JiraError>,
) -> Result<Seq<(Seq<char>, Seq<char>)>, JiraError> {
    match o {
        Ok(t) => Ok(pre + t),
        Err(e) => Err(e),
    }
}

proof fn lemma_cat_prepend_assoc(
    a: Seq<(Seq<char>, Seq<char>)>,
    b: Seq<(Seq<char>, Seq<char>)>,
    o: Result<Seq<(Seq<char>, Seq<char>)>, JiraError>,
)
    ensures
        cat_prepend(a, cat_prepend(b, o)) == cat_prepend(a + b, o),
{
    match o {
        Ok(t) => {
            assert(a + (b + t) =~= (a + b) + t);
        },
        Err(_) => {},
    }
}

/// The first value bound to `key` among an object's members.
fn obj_get<'a>(pairs: &'a Vec<(String, JsonValue)>, key: &str) -> (r: Option<&'a JsonValue>)
    ensures
        match r {
            Some(v) => spec_obj_get(obj_model(pairs@), key@) == Some(v@),
            None => spec_obj_get(obj_model(pairs@), key@) is None,
        },
{
    let want: String = key.to_owned();
    let n = pairs.len();
    let mut i: usize = 0;
    proof {
        assert(obj_model(pairs@).skip(0) =~= obj_model(pairs@));
    }
    while i < n
        invariant
            n == pairs@.len(),
            i <= n,
            want@ == key@,
            spec_obj_get(obj_model(pairs@), key@) == spec_obj_get(
                obj_model(pairs@).skip(i as int),
                key@,
            ),
        decreases n - i,
    {
        if pairs[i].0 == want {
            proof {
                assert(obj_model(pairs@).skip(i as int)[0] == obj_model(pairs@)[i as int]);
            }
            return Some(&pairs[i].1);
        }
        proof {
            assert(obj_model(pairs@).skip(i as int)[0] == obj_model(pairs@)[i as int]);
            assert(obj_model(pairs@).skip(i as int).drop_first() =~= obj_model(pairs@).skip(
                i + 1int,
            ));
        }
        i = i + 1;
    }
    proof {
        assert(obj_model(pairs@).skip(n as int) =~= Seq::<(Seq<char>, JVal)>::empty());
    }
    None
}

/// Extracts the custom-field catalog from a parsed create-metadata
/// response.
pub fn catalog_from_response(root: &JsonValue) -> (r: Result<Vec<CustomFields>, JiraError>)
    ensures
        match r {
            Ok(es) => spec_catalog(root@) == Ok::<Seq<(Seq<char>, Seq<char>)>, JiraError>(
                entries_model(es@),
            ) && (forall|i: int|
                0 <= i < es@.len() ==> spec_starts_with(#[trigger] es@[i].id@, cf_prefix())),
            Err(e) => spec_catalog(root@) == Err::<Seq<(Seq<char>, Seq<char>)>, JiraError>(e),
        },
{
    proof {
        reveal_strlit("projects");
        reveal_strlit("issuetypes");
        reveal_strlit("fields");
        reveal_strlit("name");
        reveal_strlit("customfield_");
        assert("projects"@ =~= projects_key());
        assert("issuetypes"@ =~= issuetypes_key());
        assert("fields"@ =~= fields_key());
        assert("name"@ =~= name_key());
        assert("customfield_"@ =~= cf_prefix());
    }
    let rootp = match root {
        JsonValue::Obj(p) => p,
        _ => {
            return Err(JiraError::RemoteFetch);
        },
    };
    proof {
        assert(root@ == JVal::JObj(obj_model(rootp@)));
        assert(projects_key() == "projects"@);
    }
    let projects = match obj_get(rootp, "projects") {
        Some(v) => v,
        None => {
            return Err(JiraError::InvalidProject);
        },
    };
    let parr = match projects {
        JsonValue::Arr(a) => a,
        _ => {
            proof {
                assert(spec_obj_get(root@->JObj_0, projects_key()) == Some(projects@));
                assert(!(projects@ is JArr));
                assert(spec_catalog(root@) == Err::<Seq<(Seq<char>, Seq<char>)>, JiraError>(
                    JiraError::RemoteFetch,
                ));
            }
            return Err(JiraError::RemoteFetch);
        },
    };
    if parr.len() == 0 {
        proof {
            assert(arr_model(parr@) =~= Seq::<JVal>::empty());
        }
        return Err(JiraError::InvalidProject);
    }
    let p0v = &parr[0];
    proof {
        assert(arr_model(parr@)[0] == parr@[0]@);
    }
    let p0 = match p0v {
        JsonValue::Obj(p) => p,
        _ => {
            return Err(JiraError::RemoteFetch);
        },
    };
    let issuetypes = match obj_get(p0, "issuetypes") {
        Some(v) => v,
        None => {
            return Err(JiraError::InvalidProject);
        },
    };
    let iarr = match issuetypes {
        JsonValue::Arr(a) => a,
        _ => {
            return Err(JiraError::RemoteFetch);
        },
    };
    if iarr.len() == 0 {
        proof {
            assert(arr_model(iarr@) =~= Seq::<JVal>::empty());
        }
        return Err(JiraError::InvalidProject);
    }
    let it0v = &iarr[0];
    proof {
        assert(arr_model(iarr@)[0] == iarr@[0]@);
    }
    let it0 = match it0v {
        JsonValue::Obj(p) => p,
        _ => {
            return Err(JiraError::RemoteFetch);
        },
    };
    let fs = match obj_get(it0, "fields") {
        Some(v) => match v {
            JsonValue::Obj(p) => p,
            _ => {
                return Err(JiraError::RemoteFetch);
            },
        },
        None => {
            return Err(JiraError::RemoteFetch);
        },
    };
    let ghost fsm = obj_model(fs@);
    proof {
        assert(spec_catalog(root@) == fields_catalog(fsm));
    }
    let prefix_chars = str_to_chars("customfield_");
    let mut acc: Vec<CustomFields> = Vec::new();
    let n = fs.len();
    let mut i: usize = 0;
    proof {
        assert(fsm.skip(0) =~= fsm);
        assert(entries_model(acc@) =~= Seq::<(Seq<char>, Seq<char>)>::empty());
        assert(cat_prepend(entries_model(acc@), fields_catalog(fsm)) == fields_catalog(fsm));
    }
    while i < n
        invariant
            n == fs@.len(),
            fsm == obj_model(fs@),
            spec_catalog(root@) == fields_catalog(fsm),
            i <= n,
            prefix_chars@ == cf_prefix(),
            fields_catalog(fsm) == cat_prepend(
                entries_model(acc@),
                fields_catalog(fsm.skip(i as int)),
            ),
            forall|k: int| 0 <= k < acc@.len() ==> spec_starts_with(
                #[trigger] acc@[k].id@,
                cf_prefix(),
            ),
        decreases n - i,
    {
        let ghost suffix = fsm.skip(i as int);
        proof {
            reveal_strlit("name");
            assert("name"@ =~= name_key());
            assert(suffix[0] == fsm[i as int]);
            assert(suffix.drop_first() =~= fsm.skip(i + 1int));
            assert(fsm[i as int] == (fs@[i as int].0@, fs@[i as int].1@));
        }
        let kc = str_to_chars(fs[i].0.as_str());
        if starts_with_chars(&kc, &prefix_chars) {
            proof {
                assert(spec_starts_with(suffix[0].0, cf_prefix()));
            }
            match &fs[i].1 {
                JsonValue::Obj(vp) => {
                    proof {
                        assert(suffix[0].1 == JVal::JObj(obj_model(vp@)));
                    }
                    match obj_get(vp, "name") {
                        Some(nmv) => match nmv {
                            JsonValue::Str(nm) => {
                                let ghost prev = acc@;
                                let entry = CustomFields {
                                    id: fs[i].0.clone(),
                                    name: nm.clone(),
                                    custom: None,
                                    orderable: None,
                                    navigable: None,
                                    searchable: None,
                                    clause_names: Vec::new(),
                                    schema: None,
                                };
                                acc.push(entry);
                                proof {
                                    assert(spec_obj_get(suffix[0].1->JObj_0, name_key())
                                        == Some(JVal::JStr(nm@)));
                                    let one = (suffix[0].0, spec_obj_get(
                                        suffix[0].1->JObj_0,
                                        name_key(),
                                    )->Some_0->JStr_0);
                                    assert(fields_catalog(suffix) == cat_prepend(
                                        seq![one],
                                        fields_catalog(fsm.skip(i + 1int)),
                                    ));
                                    lemma_cat_prepend_assoc(
                                        entries_model(prev),
                                        seq![one],
                                        fields_catalog(fsm.skip(i + 1int)),
                                    );
                                    assert(acc@.last().id@ == one.0);
                                    assert(acc@.last().name@ == one.1);
                                    assert(entries_model(acc@) =~~= entries_model(prev) + seq![
                                        one,
                                    ]);
                                }
                            },
                            _ => {
                                proof {
                                    assert(fields_catalog(suffix) == Err::<
                                        Seq<(Seq<char>, Seq<char>)>,
                                        JiraError,
                                    >(JiraError::RemoteFetch));
                                }
                                return Err(JiraError::RemoteFetch);
                            },
                        },
                        None => {
                            proof {
                                assert(fields_catalog(suffix) == Err::<
                                    Seq<(Seq<char>, Seq<char>)>,
                                    JiraError,
                                >(JiraError::RemoteFetch));
                            }
                            return Err(JiraError::RemoteFetch);
                        },
                    }
                },
                _ => {
                    proof {
                        assert(!(suffix[0].1 is JObj));
                        assert(fields_catalog(suffix) == Err::<
                            Seq<(Seq<char>, Seq<char>)>,
                            JiraError,
                        >(JiraError::RemoteFetch));
                    }
                    return Err(JiraError::RemoteFetch);
                },
            }
        } else {
            proof {
                assert(!spec_starts_with(suffix[0].0, cf_prefix()));
                assert(fields_catalog(suffix) == fields_catalog(fsm.skip(i + 1int)));
            }
        }
        i = i + 1;
    }
    proof {
        assert(fsm.skip(n as int) =~= Seq::<(Seq<char>, JVal)>::empty());
        assert(fields_catalog(fsm.skip(n as int)) == Ok::<
            Seq<(Seq<char>, Seq<char>)>,
            JiraError,
        >(Seq::empty()));
        assert(entries_model(acc@) + Seq::<(Seq<char>, Seq<char>)>::empty() =~= entries_model(
            acc@,
        ));
    }
    Ok(acc)
}

/// Builds the JQL clause token of a wire key.
pub fn clause_token(wire: &str) -> (r: String)
    requires
        spec_starts_with(wire@, cf_prefix()),
    ensures
        r@ == clause_of(wire@),
{
    let wc = str_to_chars(wire);
    let mut out: Vec<char> = Vec::new();
    out.push('c');
    out.push('f');
    out.push('[');
    let mut i: usize = 12;
    proof {
        assert(wc@.len() >= 12);
        assert(out@ =~= seq!['c', 'f', '['] + wire@.subrange(12, 12));
    }
    while i < wc.len()
        invariant
            wc@ == wire@,
            12 <= i <= wc@.len(),
            out@ == seq!['c', 'f', '['] + wire@.subrange(12, i as int),
        decreases wc@.len() - i,
    {
        out.push(wc[i]);
        i = i + 1;
        proof {
            assert(out@ =~= seq!['c', 'f', '['] + wire@.subrange(12, i as int));
        }
    }
    out.push(']');
    proof {
        assert(wire@.subrange(12, wire@.len() as int) =~= wire@.skip(12));
        assert(out@ =~= clause_of(wire@));
    }
    chars_to_string(&out)
}

/// Builds the forward and reverse maps of a catalog, later entries of a
/// repeated display name overriding earlier ones in both maps alike.
pub fn build_catalog_maps(entries: &Vec<CustomFields>) -> (r: (FieldMap, FieldMap))
    requires
        forall|i: int| 0 <= i < entries@.len() ==> spec_starts_with(
            #[trigger] entries@[i].id@,
            cf_prefix(),
        ),
    ensures
        r.0@ == forward_of(entries_model(entries@)),
        r.1@ == reverse_of(entries_model(entries@)),
        r.0.wf(),
        r.1.wf(),
{
    let ghost model = entries_model(entries@);
    let mut forward = FieldMap::new();
    let mut reverse = FieldMap::new();
    let n = entries.len();
    let mut i: usize = 0;
    proof {
        assert(forward@ =~= forward_of(model.subrange(0, 0)));
        assert(reverse@ =~= reverse_of(model.subrange(0, 0)));
    }
    while i < n
        invariant
            n == entries@.len(),
            model == entries_model(entries@),
            i <= n,
            forall|k: int| 0 <= k < entries@.len() ==> spec_starts_with(
                #[trigger] entries@[k].id@,
                cf_prefix(),
            ),
            forward.wf(),
            reverse.wf(),
            forward@ == forward_of(model.subrange(0, i as int)),
            reverse@ == reverse_of(model.subrange(0, i as int)),
        decreases n - i,
    {
        let wire = entries[i].id.clone();
        let display = entries[i].name.clone();
        let clause = clause_token(wire.as_str());
        let ghost pre = model.subrange(0, i as int);
        forward.insert(display.clone(), wire);
        reverse.insert(display, clause);
        proof {
            let post = model.subrange(0, i + 1int);
            assert(post.drop_last() =~= pre);
            assert(post.last() == (entries@[i as int].id@, entries@[i as int].name@));
            let fpost = Seq::new(post.len(), |k: int| (post[k].1, post[k].0));
            let fpre = Seq::new(pre.len(), |k: int| (pre[k].1, pre[k].0));
            assert(fpost.drop_last() =~= fpre);
            assert(forward@ == forward_of(post));
            let rpost = Seq::new(post.len(), |k: int| (post[k].1, clause_of(post[k].0)));
            let rpre = Seq::new(pre.len(), |k: int| (pre[k].1, clause_of(pre[k].0)));
            assert(rpost.drop_last() =~= rpre);
            assert(reverse@ == reverse_of(post));
        }
        i = i + 1;
    }
    proof {
        assert(model.subrange(0, n as int) =~= model);
    }
    (forward, reverse)
}

/// What a whole create-metadata response body resolves to: the forward and
/// reverse maps of its catalog.  An unreadable body means the fetch cannot
/// be used; a readable body without projects or issue types names an
/// unknown project.
pub open spec fn spec_resolve(body: Seq<char>) -> Result<
    (Seq<(Seq<char>, Seq<char>)>, Seq<(Seq<char>, Seq<char>)>),
    JiraError,
> {
    match spec_parse(body) {
        None => Err(JiraError::RemoteFetch),
        Some(root) => match spec_catalog(root) {
            Err(e) => Err(e),
            Ok(es) => Ok((forward_of(es), reverse_of(es))),
        },
    }
}

/// The outcome of looking for a project's two cache files.
#[derive(Debug)]
pub enum CacheLookup {
    /// Both files were present and readable: their maps, forward then
    /// reverse.  No fetch is needed.
    Hit(FieldMap, FieldMap),
    /// Anything else: the caller must fetch the catalog.
    Miss,
}

/// The cache and resolution component.
pub struct CustomFieldsHandler;

impl CustomFieldsHandler {
    /// Decides a resolution from what the file store returned for the two
    /// cache files: a hit exactly when both files were present and both
    /// held a readable field-map object.
    pub fn get_or_cache(
        &self,
        forward_text: &Option<String>,
        reverse_text: &Option<String>,
    ) -> (r: CacheLookup)
        ensures
            match r {
                CacheLookup::Hit(f, v) => {
                    &&& forward_text matches Some(ft) && map_file(ft@) == Some(f@)
                    &&& reverse_text matches Some(rt) && map_file(rt@) == Some(v@)
                    &&& f.wf()
                    &&& v.wf()
                },
                CacheLookup::Miss => !{
                    &&& forward_text matches Some(ft) && map_file(ft@) is Some
                    &&& reverse_text matches Some(rt) && map_file(rt@) is Some
                },
            },
    {
        match (forward_text, reverse_text) {
            (Some(ft), Some(rt)) => match parse_field_map(ft.as_str()) {
                Ok(f) => match parse_field_map(rt.as_str()) {
                    Ok(v) => CacheLookup::Hit(f, v),
                    Err(_) => CacheLookup::Miss,
                },
                Err(_) => CacheLookup::Miss,
            },
            _ => CacheLookup::Miss,
        }
    }

    /// Turns a fetched create-metadata response body into the two maps.
    pub fn resolve_fetched(&self, body: &str) -> (r: Result<(FieldMap, FieldMap), JiraError>)
        ensures
            match r {
                Ok(maps) => {
                    &&& spec_resolve(body@) matches Ok(m)
                    &&& m.0 == maps.0@
                    &&& m.1 == maps.1@
                    &&& maps.0.wf()
                    &&& maps.1.wf()
                },
                Err(e) => spec_resolve(body@) == Err::<
                    (Seq<(Seq<char>, Seq<char>)>, Seq<(Seq<char>, Seq<char>)>),
                    JiraError,
                >(e),
            },
    {
        let root = match from_json_text(body) {
            Ok(v) => v,
            Err(_) => {
                return Err(JiraError::RemoteFetch);
            },
        };
        let entries = match catalog_from_response(&root) {
            Ok(es) => es,
            Err(e) => {
                return Err(e);
            },
        };
        let maps = build_catalog_maps(&entries);
        Ok(maps)
    }

    /// The two cache file paths of a project: forward, then reverse.
    pub fn cache_file_paths(&self, cache_root: &str, project: &str) -> (r: (String, String))
        ensures
            r.0@ == cache_root@ + "/custom_fields_"@ + project@ + ".json"@,
            r.1@ == cache_root@ + "/custom_fields_"@ + project@ + ".reversed.json"@,
    {
        let mut forward: String = cache_root.to_owned();
        forward.append("/custom_fields_");
        forward.append(project);
        let mut reverse = forward.clone();
        forward.append(".json");
        reverse.append(".reversed.json");
        (forward, reverse)
    }

    /// The create-metadata URL a project's catalog is fetched from.
    pub fn createmeta_url(&self, host: &str, project: &str) -> (r: String)
        ensures
            r@ == host@ + crate::spec_rest_uri() + "/issue/createmeta?projectKeys="@ + project@
                + "&expand=projects.issuetypes.fields"@,
    {
        let mut url: String = host.to_owned();
        url.append(crate::rest_uri());
        url.append("/issue/createmeta?projectKeys=");
        url.append(project);
        url.append("&expand=projects.issuetypes.fields");
        url
    }
}

/// A second resolution after a persisted fetch is a cache hit: once the
/// two maps of a fetch are written with [`render_field_map`], a later
/// [`CustomFieldsHandler::get_or_cache`] on those file texts reads back
/// exactly the same maps, so no second fetch happens.
pub proof fn lemma_second_resolution_hits_cache(
    forward: Seq<(Seq<char>, Seq<char>)>,
    reverse: Seq<(Seq<char>, Seq<char>)>,
)
    requires
        unique_keys(forward),
        unique_keys(reverse),
    ensures
        map_file(render(field_map_jval(forward))) == Some(forward),
        map_file(render(field_map_jval(reverse))) == Some(reverse),
{
    lemma_cache_file_round_trip(forward);
    lemma_cache_file_round_trip(reverse);
}

/// Maps resolved from one fetched catalog are mutually consistent: they
/// bind exactly the same display names, and the clause token bound to a
/// name is derived from the wire key bound to it.
pub proof fn lemma_resolved_maps_consistent(body: Seq<char>)
    ensures
        spec_resolve(body) matches Ok(m) ==> {
            &&& unique_keys(m.0)
            &&& unique_keys(m.1)
            &&& forall|n: Seq<char>| has_key(m.0, n) <==> has_key(m.1, n)
            &&& forall|n: Seq<char>| #[trigger] lookup(m.0, n) is Some ==> lookup(m.1, n)
                == Some(clause_of(lookup(m.0, n)->Some_0))
        },
{
    if spec_resolve(body) is Ok {
        let root = spec_parse(body)->Some_0;
        let es = spec_catalog(root)->Ok_0;
        lemma_maps_mutually_consistent(es);
    }
}

} // verus!
