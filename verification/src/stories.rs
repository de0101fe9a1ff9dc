//! Story creation: templates, argument merging and payload construction.
//!
//! A payload is built by merging, per field, in priority order: the
//! command-line value wins; else the template value; else the structural
//! default.  The only field with a non-empty default is the issue type,
//! which defaults to `Story`; any other field absent from both sources is
//! left out of the payload.  Custom fields come from the template in their
//! given order, each display name translated through the forward map and
//! inserted with replacement on the wire key, so a name bound twice keeps
//! one member holding the later value; an unknown name aborts the whole
//! construction, leaving no partial payload.

use vstd::prelude::*;

use crate::errors::JiraError;
use crate::field_map::{lookup, spec_insert, FieldMap};
use crate::translator::to_jql_clause;
use crate::json::{arr_model, obj_model, wf, JVal, JsonValue};
use crate::json_parse::spec_parse;
use crate::json::render;
use crate::json_props::lemma_render_parse_round_trip;

verus! {

/// A project reference in a payload: `{"key": ...}`.
#[derive(Debug, Clone)]
pub struct ProjectKey {
    pub key: String,
}

/// An issue type reference in a payload: `{"name": ...}`.
#[derive(Debug, Clone)]
pub struct IssueType {
    pub name: String,
}

/// Optional default values for a story, loaded from a template file.
#[derive(Debug, Clone)]
pub struct Story {
    pub project: Option<ProjectKey>,
    pub summary: Option<String>,
    pub description: Option<String>,
    pub issuetype: Option<IssueType>,
    pub labels: Option<Vec<String>>,
    /// Custom fields as (display name, value) pairs, in template order.
    pub custom_fields: Option<Vec<(String, String)>>,
}

/// Command-line arguments of the story-creation command.
#[derive(Debug, Clone)]
pub struct StoryOps {
    pub project: Option<String>,
    pub epic: Option<String>,
    pub summary: Option<String>,
    pub description: Option<String>,
    pub labels: Option<Vec<String>>,
    pub template_path: Option<String>,
    pub file: Option<String>,
}

/// Command-line arguments of the story-listing command.
#[derive(Debug, Clone)]
pub struct StoryListOps {
    pub epic: String,
    pub project: String,
}

/// The story-creation and story-listing component.
pub struct StoriesHandler;

/// The `fields` key.
pub open spec fn fields_name() -> Seq<char> {
    seq!['f', 'i', 'e', 'l', 'd', 's']
}

/// The `project` key.
pub open spec fn project_name() -> Seq<char> {
    seq!['p', 'r', 'o', 'j', 'e', 'c', 't']
}

/// The `key` key.
pub open spec fn key_name() -> Seq<char> {
    seq!['k', 'e', 'y']
}

/// The `summary` key.
pub open spec fn summary_name() -> Seq<char> {
    seq!['s', 'u', 'm', 'm', 'a', 'r', 'y']
}

/// The `description` key.
pub open spec fn description_name() -> Seq<char> {
    seq!['d', 'e', 's', 'c', 'r', 'i', 'p', 't', 'i', 'o', 'n']
}

/// The `labels` key.
pub open spec fn labels_name() -> Seq<char> {
    seq!['l', 'a', 'b', 'e', 'l', 's']
}

/// The `issuetype` key.
pub open spec fn issuetype_name() -> Seq<char> {
    seq!['i', 's', 's', 'u', 'e', 't', 'y', 'p', 'e']
}

/// The `name` key.
pub open spec fn name_name() -> Seq<char> {
    seq!['n', 'a', 'm', 'e']
}

/// The default issue type, `Story`.
pub open spec fn story_type_name() -> Seq<char> {
    seq!['S', 't', 'o', 'r', 'y']
}

/// The views of a vector of strings.
pub open spec fn strings_model(v: Seq<String>) -> Seq<Seq<char>> {
    Seq::new(v.len(), |i: int| v[i]@)
}

/// The views of a vector of string pairs.
pub open spec fn pairs_model(v: Seq<(String, String)>) -> Seq<(Seq<char>, Seq<char>)> {
    Seq::new(v.len(), |i: int| (v[i].0@, v[i].1@))
}

/// The resolved project key: the command-line value if present, else the
/// template's, else none.
pub open spec fn spec_project(args: StoryOps, template: Story) -> Option<Seq<char>> {
    if args.project is Some {
        Some(args.project->0@)
    } else if template.project is Some {
        Some(template.project->0.key@)
    } else {
        None
    }
}

/// The resolved summary.
pub open spec fn spec_summary(args: StoryOps, template: Story) -> Option<Seq<char>> {
    if args.summary is Some {
        Some(args.summary->0@)
    } else if template.summary is Some {
        Some(template.summary->0@)
    } else {
        None
    }
}

/// The resolved description.
pub open spec fn spec_description(args: StoryOps, template: Story) -> Option<Seq<char>> {
    if args.description is Some {
        Some(args.description->0@)
    } else if template.description is Some {
        Some(template.description->0@)
    } else {
        None
    }
}

/// The resolved labels.
pub open spec fn spec_labels(args: StoryOps, template: Story) -> Option<Seq<Seq<char>>> {
    if args.labels is Some {
        Some(strings_model(args.labels->0@))
    } else if template.labels is Some {
        Some(strings_model(template.labels->0@))
    } else {
        None
    }
}

/// The resolved issue type name: the template's, else `Story`.
pub open spec fn spec_issuetype(template: Story) -> Seq<char> {
    if template.issuetype is Some {
        template.issuetype->0.name@
    } else {
        story_type_name()
    }
}

/// The translated custom-field bindings: each display name translated to
/// its wire key and inserted in the given order with replacement, so a
/// duplicate name leaves one binding holding the later value; the first
/// unknown display name aborts with that name.
pub open spec fn custom_bindings(
    cfs: Seq<(Seq<char>, Seq<char>)>,
    fwd: Seq<(Seq<char>, Seq<char>)>,
) -> Result<Seq<(Seq<char>, Seq<char>)>, Seq<char>>
    decreases cfs.len(),
{
    if cfs.len() == 0 {
        Ok(Seq::empty())
    } else {
        match custom_bindings(cfs.drop_last(), fwd) {
            Err(n) => Err(n),
            Ok(acc) => match lookup(fwd, cfs.last().0) {
                None => Err(cfs.last().0),
                Some(wire) => Ok(spec_insert(acc, wire, cfs.last().1)),
            },
        }
    }
}

/// String bindings as object members: each value a JSON string.
pub open spec fn jstr_members(ps: Seq<(Seq<char>, Seq<char>)>) -> Seq<(Seq<char>, JVal)> {
    Seq::new(ps.len(), |i: int| (ps[i].0, JVal::JStr(ps[i].1)))
}

/// The custom-field members of the payload: the translated bindings, one
/// member per wire key with the last write winning, values as strings.
pub open spec fn custom_members(
    cfs: Seq<(Seq<char>, Seq<char>)>,
    fwd: Seq<(Seq<char>, Seq<char>)>,
) -> Result<Seq<(Seq<char>, JVal)>, Seq<char>> {
    match custom_bindings(cfs, fwd) {
        Err(n) => Err(n),
        Ok(bs) => Ok(jstr_members(bs)),
    }
}

/// The resolved field values a payload is rendered from.
#[verifier::ext_equal]
pub ghost struct FieldsModel {
    pub project: Option<Seq<char>>,
    pub summary: Option<Seq<char>>,
    pub description: Option<Seq<char>>,
    pub labels: Option<Seq<Seq<char>>>,
    pub issuetype: Seq<char>,
    pub custom: Seq<(Seq<char>, Seq<char>)>,
}

/// The resolved field values of one story-creation invocation.
pub open spec fn fields_model_of(args: StoryOps, template: Story) -> FieldsModel {
    FieldsModel {
        project: spec_project(args, template),
        summary: spec_summary(args, template),
        description: spec_description(args, template),
        labels: spec_labels(args, template),
        issuetype: spec_issuetype(template),
        custom: if template.custom_fields is Some {
            pairs_model(template.custom_fields->0@)
        } else {
            Seq::empty()
        },
    }
}

/// The members of a payload's `fields` object, in canonical order:
/// project, summary, description, labels, issue type, then the custom
/// fields.
pub open spec fn members_of_model(
    m: FieldsModel,
    fwd: Seq<(Seq<char>, Seq<char>)>,
) -> Result<Seq<(Seq<char>, JVal)>, Seq<char>> {
    match custom_members(m.custom, fwd) {
        Err(n) => Err(n),
        Ok(cm) => {
            let base = (match m.project {
                Some(k) => seq![
                    (project_name(), JVal::JObj(seq![(key_name(), JVal::JStr(k))])),
                ],
                None => Seq::empty(),
            }) + (match m.summary {
                Some(sv) => seq![(summary_name(), JVal::JStr(sv))],
                None => Seq::empty(),
            }) + (match m.description {
                Some(d) => seq![(description_name(), JVal::JStr(d))],
                None => Seq::empty(),
            }) + (match m.labels {
                Some(ls) => seq![
                    (labels_name(), JVal::JArr(Seq::new(ls.len(), |i: int| JVal::JStr(ls[i])))),
                ],
                None => Seq::empty(),
            }) + seq![
                (issuetype_name(), JVal::JObj(seq![(name_name(), JVal::JStr(m.issuetype))])),
            ];
            Ok(base + cm)
        },
    }
}

/// The payload `{"fields": {...}}` of one resolved model.
pub open spec fn payload_of_model(
    m: FieldsModel,
    fwd: Seq<(Seq<char>, Seq<char>)>,
) -> Result<JVal, Seq<char>> {
    match members_of_model(m, fwd) {
        Err(n) => Err(n),
        Ok(ms) => Ok(JVal::JObj(seq![(fields_name(), JVal::JObj(ms))])),
    }
}

/// The members of the payload's `fields` object for one invocation.
pub open spec fn spec_field_members(
    args: StoryOps,
    template: Story,
    fwd: Seq<(Seq<char>, Seq<char>)>,
) -> Result<Seq<(Seq<char>, JVal)>, Seq<char>> {
    members_of_model(fields_model_of(args, template), fwd)
}

/// The whole creation payload: `{"fields": {...}}`.
pub open spec fn spec_payload(
    args: StoryOps,
    template: Story,
    fwd: Seq<(Seq<char>, Seq<char>)>,
) -> Result<JVal, Seq<char>> {
    match spec_field_members(args, template, fwd) {
        Err(n) => Err(n),
        Ok(ms) => Ok(JVal::JObj(seq![(fields_name(), JVal::JObj(ms))])),
    }
}

/// Merge precedence, field by field: the resolved value is the
/// command-line value if present, else the template value, else the
/// structural default — absence for project, summary, description and
/// labels, and `Story` for the issue type.
pub proof fn lemma_merge_precedence(args: StoryOps, template: Story)
    ensures
        args.summary matches Some(v) ==> spec_summary(args, template) == Some(v@),
        args.summary is None ==> (template.summary matches Some(v) ==> spec_summary(
            args,
            template,
        ) == Some(v@)),
        args.summary is None && template.summary is None ==> spec_summary(args, template)
            is None,
        args.description matches Some(v) ==> spec_description(args, template) == Some(v@),
        args.description is None ==> (template.description matches Some(v)
            ==> spec_description(args, template) == Some(v@)),
        args.description is None && template.description is None ==> spec_description(
            args,
            template,
        ) is None,
        args.labels matches Some(v) ==> spec_labels(args, template) == Some(strings_model(v@)),
        args.labels is None ==> (template.labels matches Some(v) ==> spec_labels(
            args,
            template,
        ) == Some(strings_model(v@))),
        args.labels is None && template.labels is None ==> spec_labels(args, template) is None,
        args.project matches Some(v) ==> spec_project(args, template) == Some(v@),
        args.project is None ==> (template.project matches Some(p) ==> spec_project(
            args,
            template,
        ) == Some(p.key@)),
        args.project is None && template.project is None ==> spec_project(args, template)
            is None,
        template.issuetype matches Some(t) ==> spec_issuetype(template) == t.name@,
        template.issuetype is None ==> spec_issuetype(template) == story_type_name(),
{
}

/// Every payload the builder can produce is well-formed.
pub proof fn lemma_payload_wf(args: StoryOps, template: Story, fwd: Seq<(Seq<char>, Seq<char>)>)
    ensures
        spec_payload(args, template, fwd) matches Ok(j) ==> wf(j),
{
    if spec_payload(args, template, fwd) is Ok {
        let cfs = if template.custom_fields is Some {
            pairs_model(template.custom_fields->0@)
        } else {
            Seq::empty()
        };
        let cm = custom_members(cfs, fwd)->Ok_0;
        lemma_custom_members_wf(cfs, fwd);
        let ms = spec_field_members(args, template, fwd)->Ok_0;
        assert forall|i: int| 0 <= i < ms.len() implies wf(#[trigger] ms[i].1) by {
            lemma_member_values_wf(args, template, fwd, i);
        }
        let j = spec_payload(args, template, fwd)->Ok_0;
        assert(wf(j)) by {
            assert(forall|i: int|
                0 <= i < j->JObj_0.len() ==> wf(#[trigger] j->JObj_0[i].1));
        }
    }
}

proof fn lemma_custom_members_wf(
    cfs: Seq<(Seq<char>, Seq<char>)>,
    fwd: Seq<(Seq<char>, Seq<char>)>,
)
    ensures
        custom_members(cfs, fwd) matches Ok(cm) ==> forall|i: int|
            0 <= i < cm.len() ==> wf(#[trigger] cm[i].1),
{
    if custom_members(cfs, fwd) is Ok {
        let bs = custom_bindings(cfs, fwd)->Ok_0;
        let cm = custom_members(cfs, fwd)->Ok_0;
        assert forall|i: int| 0 <= i < cm.len() implies wf(#[trigger] cm[i].1) by {
            assert(cm[i].1 == JVal::JStr(bs[i].1));
        }
    }
}

/// An unknown display name at the first failing position decides the
/// whole translation's error, whatever follows it.
proof fn lemma_custom_bindings_err(
    cfs: Seq<(Seq<char>, Seq<char>)>,
    fwd: Seq<(Seq<char>, Seq<char>)>,
    i: int,
)
    requires
        0 <= i < cfs.len(),
        custom_bindings(cfs.take(i), fwd) is Ok,
        lookup(fwd, cfs[i].0) is None,
    ensures
        custom_bindings(cfs, fwd) == Err::<Seq<(Seq<char>, Seq<char>)>, Seq<char>>(cfs[i].0),
    decreases cfs.len(),
{
    if i == cfs.len() - 1 {
        assert(cfs.drop_last() =~= cfs.take(i));
        assert(cfs.last() == cfs[i]);
    } else {
        assert(cfs.drop_last().take(i) =~= cfs.take(i));
        assert(cfs.drop_last()[i] == cfs[i]);
        lemma_custom_bindings_err(cfs.drop_last(), fwd, i);
    }
}

proof fn lemma_member_values_wf(
    args: StoryOps,
    template: Story,
    fwd: Seq<(Seq<char>, Seq<char>)>,
    i: int,
)
    requires
        spec_field_members(args, template, fwd) is Ok,
        0 <= i < spec_field_members(args, template, fwd)->Ok_0.len(),
    ensures
        wf(spec_field_members(args, template, fwd)->Ok_0[i].1),
{
    let cfs = if template.custom_fields is Some {
        pairs_model(template.custom_fields->0@)
    } else {
        Seq::empty()
    };
    lemma_custom_members_wf(cfs, fwd);
    let cm = custom_members(cfs, fwd)->Ok_0;
    let ms = spec_field_members(args, template, fwd)->Ok_0;
    let base_len = ms.len() - cm.len();
    if i >= base_len {
        assert(ms[i] == cm[i - base_len]);
        assert(wf(cm[i - base_len].1));
    } else {
        let v = ms[i].1;
        assert(wf(v)) by {
            if v is JObj {
                assert(forall|k: int|
                    0 <= k < v->JObj_0.len() ==> wf(#[trigger] v->JObj_0[k].1));
            }
            if v is JArr {
                assert(forall|k: int|
                    0 <= k < v->JArr_0.len() ==> wf(#[trigger] v->JArr_0[k]));
            }
        }
    }
}

/// A payload, serialized and parsed back, is the same structured value.
pub proof fn lemma_payload_round_trip(
    args: StoryOps,
    template: Story,
    fwd: Seq<(Seq<char>, Seq<char>)>,
)
    ensures
        spec_payload(args, template, fwd) matches Ok(j) ==> spec_parse(render(j)) == Some(j),
{
    if spec_payload(args, template, fwd) is Ok {
        let j = spec_payload(args, template, fwd)->Ok_0;
        lemma_payload_wf(args, template, fwd);
        lemma_render_parse_round_trip(j);
    }
}

impl StoriesHandler {
    /// Builds the creation payload `{"fields": {...}}` from the
    /// command-line arguments, the template and the forward map, by the
    /// merge precedence above.  A custom-field display name bound twice
    /// yields one member, with the later value.  Succeeds exactly when
    /// every custom-field display name of the template is known to the
    /// map; the first unknown name is the error, and no partial payload
    /// is produced.
    #[verifier::rlimit(100)]
    #[verifier::spinoff_prover]
    pub fn create_story(
        &self,
        args: &StoryOps,
        template: &Story,
        forward: &FieldMap,
    ) -> (r: Result<JsonValue, JiraError>)
        ensures
            match r {
                Ok(p) => spec_payload(*args, *template, forward@) == Ok::<JVal, Seq<char>>(p@)
                    && wf(p@),
                Err(e) => {
                    &&& spec_payload(*args, *template, forward@) matches Err(n)
                    &&& e matches JiraError::UnknownField(nm) && nm@ == n
                },
            },
    {
        proof {
            reveal_strlit("fields");
            reveal_strlit("project");
            reveal_strlit("key");
            reveal_strlit("summary");
            reveal_strlit("description");
            reveal_strlit("labels");
            reveal_strlit("issuetype");
            reveal_strlit("name");
            reveal_strlit("Story");
            assert("fields"@ =~= fields_name());
            assert("project"@ =~= project_name());
            assert("key"@ =~= key_name());
            assert("summary"@ =~= summary_name());
            assert("description"@ =~= description_name());
            assert("labels"@ =~= labels_name());
            assert("issuetype"@ =~= issuetype_name());
            assert("name"@ =~= name_name());
            assert("Story"@ =~= story_type_name());
        }
        let ghost cfs = if template.custom_fields is Some {
            pairs_model(template.custom_fields->0@)
        } else {
            Seq::<(Seq<char>, Seq<char>)>::empty()
        };
        let mut cfmap = FieldMap::new();
        match &template.custom_fields {
            Some(cfv) => {
                let n = cfv.len();
                let mut i: usize = 0;
                proof {
                    assert(cfs.take(0) =~= Seq::<(Seq<char>, Seq<char>)>::empty());
                }
                while i < n
                    invariant
                        n == cfv@.len(),
                        template.custom_fields matches Some(cf) && cf@ == cfv@,
                        cfs == pairs_model(cfv@),
                        i <= n,
                        cfmap.wf(),
                        custom_bindings(cfs.take(i as int), forward@) == Ok::<
                            Seq<(Seq<char>, Seq<char>)>,
                            Seq<char>,
                        >(cfmap@),
                    decreases n - i,
                {
                    proof {
                        assert(cfs.take(i + 1int).drop_last() =~= cfs.take(i as int));
                        assert(cfs.take(i + 1int).last() == cfs[i as int]);
                        assert(cfs[i as int].0 == cfv@[i as int].0@);
                        assert(cfs[i as int].1 == cfv@[i as int].1@);
                    }
                    match forward.get(cfv[i].0.as_str()) {
                        Some(wire) => {
                            cfmap.insert(wire, cfv[i].1.clone());
                        },
                        None => {
                            proof {
                                lemma_custom_bindings_err(cfs, forward@, i as int);
                            }
                            return Err(JiraError::UnknownField(cfv[i].0.clone()));
                        },
                    }
                    i = i + 1;
                }
                proof {
                    assert(cfs.take(n as int) =~= cfs);
                }
            },
            None => {
                proof {
                    assert(cfs =~= Seq::<(Seq<char>, Seq<char>)>::empty());
                }
            },
        }
        let mut custom: Vec<(String, JsonValue)> = Vec::new();
        let m = cfmap.len();
        let mut j: usize = 0;
        while j < m
            invariant
                m == cfmap@.len(),
                j <= m,
                custom@.len() == j,
                forall|t: int| 0 <= t < j ==> #[trigger] custom@[t].0@ == cfmap@[t].0
                    && custom@[t].1@ == JVal::JStr(cfmap@[t].1),
            decreases m - j,
        {
            let entry = cfmap.entry_at(j);
            custom.push((entry.0, JsonValue::Str(entry.1)));
            j = j + 1;
        }
        let ghost cm = custom_members(cfs, forward@)->Ok_0;
        proof {
            assert(obj_model(custom@) =~~= jstr_members(cfmap@));
            assert(custom_members(cfs, forward@) == Ok::<Seq<(Seq<char>, JVal)>, Seq<char>>(
                obj_model(custom@),
            ));
        }
        // the ordinary fields, in canonical order
        let mut fields: Vec<(String, JsonValue)> = Vec::new();
        let ghost g1 = match spec_project(*args, *template) {
            Some(k) => seq![(project_name(), JVal::JObj(seq![(key_name(), JVal::JStr(k))]))],
            None => Seq::<(Seq<char>, JVal)>::empty(),
        };
        let project_value: Option<String> = match &args.project {
            Some(k) => Some(k.clone()),
            None => match &template.project {
                Some(p) => Some(p.key.clone()),
                None => None,
            },
        };
        match project_value {
            Some(k) => {
                let ghost kv = k@;
                let mut inner: Vec<(String, JsonValue)> = Vec::new();
                inner.push((String::from_str("key"), JsonValue::Str(k)));
                fields.push((String::from_str("project"), JsonValue::Obj(inner)));
                proof {
                    assert(spec_project(*args, *template) == Some(kv));
                    assert(obj_model(inner@) =~~= seq![(key_name(), JVal::JStr(kv))]);
                    assert(fields@.len() == 1);
                    assert(obj_model(fields@)[0].0 == project_name());
                    assert(obj_model(fields@)[0].1 == JVal::JObj(obj_model(inner@)));
                    assert(obj_model(fields@)[0].1 =~~= JVal::JObj(
                        seq![(key_name(), JVal::JStr(kv))],
                    ));
                    assert(obj_model(fields@) =~~= g1);
                }
            },
            None => {
                proof {
                    assert(obj_model(fields@) =~~= g1);
                }
            },
        }
        let ghost g2 = g1 + (match spec_summary(*args, *template) {
            Some(sv) => seq![(summary_name(), JVal::JStr(sv))],
            None => Seq::<(Seq<char>, JVal)>::empty(),
        });
        let summary_value: Option<String> = match &args.summary {
            Some(v) => Some(v.clone()),
            None => match &template.summary {
                Some(v) => Some(v.clone()),
                None => None,
            },
        };
        match summary_value {
            Some(v) => {
                fields.push((String::from_str("summary"), JsonValue::Str(v)));
            },
            None => {},
        }
        proof {
            assert(obj_model(fields@) =~~= g2);
        }
        let ghost g3 = g2 + (match spec_description(*args, *template) {
            Some(d) => seq![(description_name(), JVal::JStr(d))],
            None => Seq::<(Seq<char>, JVal)>::empty(),
        });
        let description_value: Option<String> = match &args.description {
            Some(v) => Some(v.clone()),
            None => match &template.description {
                Some(v) => Some(v.clone()),
                None => None,
            },
        };
        match description_value {
            Some(v) => {
                fields.push((String::from_str("description"), JsonValue::Str(v)));
            },
            None => {},
        }
        proof {
            assert(obj_model(fields@) =~~= g3);
        }
        let ghost g4 = g3 + (match spec_labels(*args, *template) {
            Some(ls) => seq![
                (labels_name(), JVal::JArr(Seq::new(ls.len(), |i: int| JVal::JStr(ls[i])))),
            ],
            None => Seq::<(Seq<char>, JVal)>::empty(),
        });
        let labels_value: Option<&Vec<String>> = match &args.labels {
            Some(v) => Some(v),
            None => match &template.labels {
                Some(v) => Some(v),
                None => None,
            },
        };
        match labels_value {
            Some(lv) => {
                let ghost ls = strings_model(lv@);
                let mut items: Vec<JsonValue> = Vec::new();
                let mut i: usize = 0;
                while i < lv.len()
                    invariant
                        i <= lv@.len(),
                        ls == strings_model(lv@),
                        arr_model(items@) =~= Seq::new(i as nat, |k: int| JVal::JStr(ls[k])),
                    decreases lv@.len() - i,
                {
                    let ghost oldv = items@;
                    items.push(JsonValue::Str(lv[i].clone()));
                    proof {
                        assert(arr_model(oldv).len() == oldv.len());
                        assert(oldv.len() == i as int);
                        assert forall|t: int| 0 <= t <= i implies arr_model(items@)[t]
                            == JVal::JStr(ls[t]) by {
                            if t < i {
                                assert(items@[t] == oldv[t]);
                                assert(arr_model(oldv)[t] == JVal::JStr(ls[t]));
                                assert(arr_model(oldv)[t] == oldv[t]@);
                                assert(arr_model(items@)[t] == items@[t]@);
                            } else {
                                assert(items@[t]@ == JVal::JStr(lv@[t]@));
                            }
                        }
                    }
                    i = i + 1;
                    proof {
                        assert(arr_model(items@) =~= Seq::new(
                            i as nat,
                            |k: int| JVal::JStr(ls[k]),
                        ));
                    }
                }
                proof {
                    assert(arr_model(items@) =~~= Seq::new(ls.len(), |k: int| JVal::JStr(ls[k])));
                }
                fields.push((String::from_str("labels"), JsonValue::Arr(items)));
            },
            None => {},
        }
        proof {
            assert(obj_model(fields@) =~~= g4);
        }
        let ghost g5 = g4 + seq![
            (issuetype_name(), JVal::JObj(seq![(name_name(), JVal::JStr(spec_issuetype(*template)))])),
        ];
        let issuetype_label: String = match &template.issuetype {
            Some(t) => t.name.clone(),
            None => String::from_str("Story"),
        };
        let ghost gprev = fields@;
        let mut type_inner: Vec<(String, JsonValue)> = Vec::new();
        type_inner.push((String::from_str("name"), JsonValue::Str(issuetype_label)));
        fields.push((String::from_str("issuetype"), JsonValue::Obj(type_inner)));
        proof {
            assert(issuetype_label@ == spec_issuetype(*template));
            assert(obj_model(type_inner@) =~~= seq![
                (name_name(), JVal::JStr(spec_issuetype(*template))),
            ]);
            assert(obj_model(gprev) == g4);
            let lst = fields@.len() - 1;
            assert(obj_model(fields@)[lst].0 == issuetype_name());
            assert(obj_model(fields@)[lst].1 =~~= JVal::JObj(
                seq![(name_name(), JVal::JStr(spec_issuetype(*template)))],
            ));
            assert forall|t: int| 0 <= t < lst implies obj_model(fields@)[t] == g4[t] by {
                assert(fields@[t] == gprev[t]);
                assert(obj_model(gprev)[t] == (gprev[t].0@, gprev[t].1@));
                assert(obj_model(fields@)[t] == (fields@[t].0@, fields@[t].1@));
            }
            assert(obj_model(fields@) =~~= g5);
        }
        let mut custom_tail = custom;
        fields.append(&mut custom_tail);
        proof {
            assert(obj_model(fields@) =~~= g5 + cm);
            assert(spec_field_members(*args, *template, forward@) == Ok::<
                Seq<(Seq<char>, JVal)>,
                Seq<char>,
            >(g5 + cm));
        }
        let mut outer: Vec<(String, JsonValue)> = Vec::new();
        outer.push((String::from_str("fields"), JsonValue::Obj(fields)));
        let payload = JsonValue::Obj(outer);
        proof {
            assert(payload@ == spec_payload(*args, *template, forward@)->Ok_0) by {
                assert(obj_model(outer@) =~~= seq![
                    (fields_name(), JVal::JObj(g5 + cm)),
                ]);
            }
            lemma_payload_wf(*args, *template, forward@);
        }
        Ok(payload)
    }
}

/// One story definition of a bulk input file.
#[derive(Debug)]
pub struct StoryRequest {
    pub project: Option<ProjectKey>,
    pub summary: Option<String>,
    pub description: Option<String>,
    pub issuetype: Option<IssueType>,
    pub story_point: Option<i8>,
    pub labels: Option<Vec<String>>,
    /// Custom fields as (display name, value) pairs, in given order.
    pub custom_fields: Option<Vec<(String, String)>>,
}

/// One entry of the bulk-creation body: `{"fields": {...}}`.
#[derive(Debug)]
pub struct StoryRequestFields {
    pub fields: StoryRequest,
}

/// The bulk input: an ordered batch of story definitions.
#[derive(Debug)]
pub struct Stories {
    pub issue_updates: Vec<StoryRequestFields>,
}

/// A page of issues returned by a story search.
#[derive(Debug)]
pub struct StoryResponse {
    pub expand: Option<String>,
    pub start_at: Option<i32>,
    pub max_result: Option<i32>,
    pub total: Option<i32>,
    pub issues: Option<Vec<crate::structs::Issue>>,
}

/// The optional values one story definition provides, as plain views.
#[verifier::ext_equal]
pub ghost struct RequestModel {
    pub project: Option<Seq<char>>,
    pub summary: Option<Seq<char>>,
    pub description: Option<Seq<char>>,
    pub issuetype: Option<Seq<char>>,
    pub story_point: Option<i8>,
    pub labels: Option<Seq<Seq<char>>>,
    pub custom: Option<Seq<(Seq<char>, Seq<char>)>>,
}

/// The model of a story definition.
pub open spec fn request_model(sr: StoryRequest) -> RequestModel {
    RequestModel {
        project: if sr.project is Some {
            Some(sr.project->0.key@)
        } else {
            None
        },
        summary: if sr.summary is Some {
            Some(sr.summary->0@)
        } else {
            None
        },
        description: if sr.description is Some {
            Some(sr.description->0@)
        } else {
            None
        },
        issuetype: if sr.issuetype is Some {
            Some(sr.issuetype->0.name@)
        } else {
            None
        },
        story_point: sr.story_point,
        labels: if sr.labels is Some {
            Some(strings_model(sr.labels->0@))
        } else {
            None
        },
        custom: if sr.custom_fields is Some {
            Some(pairs_model(sr.custom_fields->0@))
        } else {
            None
        },
    }
}

/// Field-wise merge of a story definition over the template: each of the
/// story's values wins where present, the template fills the rest, and
/// the issue type falls back to the structural default `Story` where both
/// lack it.
pub open spec fn merge_model(story: RequestModel, tmpl: RequestModel) -> RequestModel {
    RequestModel {
        project: if story.project is Some {
            story.project
        } else {
            tmpl.project
        },
        summary: if story.summary is Some {
            story.summary
        } else {
            tmpl.summary
        },
        description: if story.description is Some {
            story.description
        } else {
            tmpl.description
        },
        issuetype: if story.issuetype is Some {
            story.issuetype
        } else if tmpl.issuetype is Some {
            tmpl.issuetype
        } else {
            Some(story_type_name())
        },
        story_point: if story.story_point is Some {
            story.story_point
        } else {
            tmpl.story_point
        },
        labels: if story.labels is Some {
            story.labels
        } else {
            tmpl.labels
        },
        custom: if story.custom is Some {
            story.custom
        } else {
            tmpl.custom
        },
    }
}

/// The resolved fields of one merged story definition: absent fields are
/// omitted, the issue type defaults to `Story`, absent custom fields mean
/// none.
pub open spec fn fields_of_request(m: RequestModel) -> FieldsModel {
    FieldsModel {
        project: m.project,
        summary: m.summary,
        description: m.description,
        labels: m.labels,
        issuetype: match m.issuetype {
            Some(t) => t,
            None => story_type_name(),
        },
        custom: match m.custom {
            Some(c) => c,
            None => Seq::empty(),
        },
    }
}

/// The `issueUpdates` key.
pub open spec fn issue_updates_name() -> Seq<char> {
    seq!['i', 's', 's', 'u', 'e', 'U', 'p', 'd', 'a', 't', 'e', 's']
}

/// The payloads of a batch, each story merged over the template; the
/// first unknown display name aborts.
pub open spec fn batch_payloads(
    ms: Seq<RequestModel>,
    tmpl: RequestModel,
    fwd: Seq<(Seq<char>, Seq<char>)>,
) -> Result<Seq<JVal>, Seq<char>>
    decreases ms.len(),
{
    if ms.len() == 0 {
        Ok(Seq::empty())
    } else {
        match payload_of_model(fields_of_request(merge_model(ms[0], tmpl)), fwd) {
            Err(n) => Err(n),
            Ok(p) => match batch_payloads(ms.drop_first(), tmpl, fwd) {
                Err(n) => Err(n),
                Ok(rest) => Ok(seq![p] + rest),
            },
        }
    }
}

/// The whole bulk-creation body: `{"issueUpdates": [...]}`.
pub open spec fn spec_batch(
    ms: Seq<RequestModel>,
    tmpl: RequestModel,
    fwd: Seq<(Seq<char>, Seq<char>)>,
) -> Result<JVal, Seq<char>> {
    match batch_payloads(ms, tmpl, fwd) {
        Err(n) => Err(n),
        Ok(ps) => Ok(JVal::JObj(seq![(issue_updates_name(), JVal::JArr(ps))])),
    }
}

/// The models of a batch's story definitions, in order.
pub open spec fn batch_models(b: Stories) -> Seq<RequestModel> {
    Seq::new(b.issue_updates@.len(), |i: int| request_model(b.issue_updates@[i].fields))
}

fn clone_opt_string(o: &Option<String>) -> (r: Option<String>)
    ensures
        r == *o,
{
    match o {
        Some(s) => Some(s.clone()),
        None => None,
    }
}

fn clone_opt_strings(o: &Option<Vec<String>>) -> (r: Option<Vec<String>>)
    ensures
        r is Some <==> o is Some,
        r matches Some(v) ==> strings_model(v@) == strings_model(o->0@),
{
    match o {
        Some(v) => {
            let mut out: Vec<String> = Vec::new();
            let mut i: usize = 0;
            while i < v.len()
                invariant
                    i <= v@.len(),
                    out@.len() == i,
                    forall|k: int| 0 <= k < i ==> #[trigger] out@[k]@ == v@[k]@,
                decreases v@.len() - i,
            {
                out.push(v[i].clone());
                i = i + 1;
            }
            proof {
                assert(strings_model(out@) =~~= strings_model(v@));
            }
            Some(out)
        },
        None => None,
    }
}

fn clone_opt_pairs(o: &Option<Vec<(String, String)>>) -> (r: Option<Vec<(String, String)>>)
    ensures
        r is Some <==> o is Some,
        r matches Some(v) ==> pairs_model(v@) == pairs_model(o->0@),
{
    match o {
        Some(v) => {
            let mut out: Vec<(String, String)> = Vec::new();
            let mut i: usize = 0;
            while i < v.len()
                invariant
                    i <= v@.len(),
                    out@.len() == i,
                    forall|k: int| 0 <= k < i ==> #[trigger] out@[k].0@ == v@[k].0@
                        && out@[k].1@ == v@[k].1@,
                decreases v@.len() - i,
            {
                out.push((v[i].0.clone(), v[i].1.clone()));
                i = i + 1;
            }
            proof {
                assert(pairs_model(out@) =~~= pairs_model(v@));
            }
            Some(out)
        },
        None => None,
    }
}

impl StoryRequestFields {
    /// Merges one story definition over the template: the story's value
    /// wins per field, the template acts as a fallback, never an override,
    /// and the issue type defaults to `Story` where both lack it.
    pub fn new_or_template(story: StoryRequest, story_template: &StoryRequest) -> (r:
        StoryRequestFields)
        ensures
            request_model(r.fields) == merge_model(
                request_model(story),
                request_model(*story_template),
            ),
    {
        proof {
            reveal_strlit("Story");
            assert("Story"@ =~= story_type_name());
        }
        let ghost gstory = story;
        let fields = StoryRequest {
            project: match story.project {
                Some(p) => Some(p),
                None => match &story_template.project {
                    Some(p) => Some(ProjectKey { key: p.key.clone() }),
                    None => None,
                },
            },
            summary: match story.summary {
                Some(v) => Some(v),
                None => clone_opt_string(&story_template.summary),
            },
            description: match story.description {
                Some(v) => Some(v),
                None => clone_opt_string(&story_template.description),
            },
            issuetype: match story.issuetype {
                Some(t) => Some(t),
                None => match &story_template.issuetype {
                    Some(t) => Some(IssueType { name: t.name.clone() }),
                    None => Some(IssueType { name: String::from_str("Story") }),
                },
            },
            story_point: match story.story_point {
                Some(n) => Some(n),
                None => story_template.story_point,
            },
            labels: match story.labels {
                Some(v) => Some(v),
                None => clone_opt_strings(&story_template.labels),
            },
            custom_fields: match story.custom_fields {
                Some(v) => Some(v),
                None => clone_opt_pairs(&story_template.custom_fields),
            },
        };
        let r = StoryRequestFields { fields };
        proof {
            assert(request_model(r.fields) =~~= merge_model(
                request_model(gstory),
                request_model(*story_template),
            ));
        }
        r
    }
}

/// Prepends payloads to the list part of a batch construction.
pub open spec fn bp_prepend(pre: Seq<JVal>, o: Result<Seq<JVal>, Seq<char>>) -> Result<
    Seq<JVal>,
    Seq<char>,
> {
    match o {
        Ok(t) => Ok(pre + t),
        Err(n) => Err(n),
    }
}

proof fn lemma_bp_prepend_assoc(a: Seq<JVal>, b: Seq<JVal>, o: Result<Seq<JVal>, Seq<char>>)
    ensures
        bp_prepend(a, bp_prepend(b, o)) == bp_prepend(a + b, o),
{
    match o {
        Ok(t) => {
            assert(a + (b + t) =~= (a + b) + t);
        },
        Err(_) => {},
    }
}

/// A copy of a story definition with the same model.
fn clone_request(sr: &StoryRequest) -> (r: StoryRequest)
    ensures
        request_model(r) == request_model(*sr),
{
    let r = StoryRequest {
        project: match &sr.project {
            Some(p) => Some(ProjectKey { key: p.key.clone() }),
            None => None,
        },
        summary: clone_opt_string(&sr.summary),
        description: clone_opt_string(&sr.description),
        issuetype: match &sr.issuetype {
            Some(t) => Some(IssueType { name: t.name.clone() }),
            None => None,
        },
        story_point: sr.story_point,
        labels: clone_opt_strings(&sr.labels),
        custom_fields: clone_opt_pairs(&sr.custom_fields),
    };
    proof {
        assert(request_model(r) =~~= request_model(*sr));
    }
    r
}

impl StoriesHandler {
    /// Builds the bulk-creation body `{"issueUpdates": [...]}`: each story
    /// definition is merged over the template and turned into a payload.
    /// The first unknown custom-field display name aborts the whole batch;
    /// no partial body is produced.
    pub fn build_batch(
        &self,
        batch: &Stories,
        template: &StoryRequest,
        forward: &FieldMap,
    ) -> (r: Result<JsonValue, JiraError>)
        ensures
            match r {
                Ok(p) => spec_batch(batch_models(*batch), request_model(*template), forward@)
                    == Ok::<JVal, Seq<char>>(p@),
                Err(e) => {
                    &&& spec_batch(
                        batch_models(*batch),
                        request_model(*template),
                        forward@,
                    ) matches Err(n)
                    &&& e matches JiraError::UnknownField(nm) && nm@ == n
                },
            },
    {
        proof {
            reveal_strlit("issueUpdates");
            assert("issueUpdates"@ =~= issue_updates_name());
        }
        let ghost ms = batch_models(*batch);
        let ghost tm = request_model(*template);
        let empty_args = StoryOps {
            project: None,
            epic: None,
            summary: None,
            description: None,
            labels: None,
            template_path: None,
            file: None,
        };
        let mut payloads: Vec<JsonValue> = Vec::new();
        let n = batch.issue_updates.len();
        let mut i: usize = 0;
        proof {
            assert(ms.skip(0) =~= ms);
            assert(arr_model(payloads@) =~= Seq::<JVal>::empty());
        }
        while i < n
            invariant
                n == batch.issue_updates@.len(),
                ms == batch_models(*batch),
                tm == request_model(*template),
                empty_args.project is None,
                empty_args.summary is None,
                empty_args.description is None,
                empty_args.labels is None,
                i <= n,
                batch_payloads(ms, tm, forward@) == bp_prepend(
                    arr_model(payloads@),
                    batch_payloads(ms.skip(i as int), tm, forward@),
                ),
            decreases n - i,
        {
            let ghost suffix = ms.skip(i as int);
            proof {
                assert(suffix[0] == ms[i as int]);
                assert(ms[i as int] == request_model(batch.issue_updates@[i as int].fields));
                assert(suffix.drop_first() =~= ms.skip(i + 1int));
            }
            let story_copy = clone_request(&batch.issue_updates[i].fields);
            let merged = StoryRequestFields::new_or_template(story_copy, template);
            let story_v = Story {
                project: merged.fields.project,
                summary: merged.fields.summary,
                description: merged.fields.description,
                issuetype: merged.fields.issuetype,
                labels: merged.fields.labels,
                custom_fields: merged.fields.custom_fields,
            };
            proof {
                assert(fields_model_of(empty_args, story_v) =~~= fields_of_request(
                    merge_model(suffix[0], tm),
                ));
            }
            match self.create_story(&empty_args, &story_v, forward) {
                Ok(p) => {
                    let ghost prev = payloads@;
                    payloads.push(p);
                    proof {
                        assert(batch_payloads(suffix, tm, forward@) == bp_prepend(
                            seq![p@],
                            batch_payloads(ms.skip(i + 1int), tm, forward@),
                        ));
                        lemma_bp_prepend_assoc(
                            arr_model(prev),
                            seq![p@],
                            batch_payloads(ms.skip(i + 1int), tm, forward@),
                        );
                        assert(arr_model(payloads@) =~~= arr_model(prev) + seq![p@]);
                    }
                },
                Err(e) => {
                    proof {
                        assert(batch_payloads(suffix, tm, forward@) is Err);
                    }
                    return Err(e);
                },
            }
            i = i + 1;
        }
        proof {
            assert(ms.skip(n as int) =~= Seq::<RequestModel>::empty());
            assert(arr_model(payloads@) + Seq::<JVal>::empty() =~= arr_model(payloads@));
        }
        let mut outer: Vec<(String, JsonValue)> = Vec::new();
        let items = payloads;
        outer.push((String::from_str("issueUpdates"), JsonValue::Arr(items)));
        let body = JsonValue::Obj(outer);
        proof {
            assert(obj_model(outer@) =~~= seq![
                (issue_updates_name(), JVal::JArr(batch_payloads(ms, tm, forward@)->Ok_0)),
            ]);
        }
        Ok(body)
    }
}

impl Default for Story {
    /// The all-default template: no values, the default issue type.
    fn default() -> (r: Story)
        ensures
            r.project is None,
            r.summary is None,
            r.description is None,
            r.issuetype matches Some(t) && t.name@ == story_type_name(),
            r.labels is None,
            r.custom_fields is None,
    {
        proof {
            reveal_strlit("Story");
            assert("Story"@ =~= story_type_name());
        }
        Story {
            project: None,
            summary: None,
            description: None,
            issuetype: Some(IssueType { name: String::from_str("Story") }),
            labels: None,
            custom_fields: None,
        }
    }
}

impl Default for StoryRequest {
    /// The all-default story definition: no values, zero story points,
    /// the default issue type.
    fn default() -> (r: StoryRequest)
        ensures
            r.project is None,
            r.summary is None,
            r.description is None,
            r.issuetype matches Some(t) && t.name@ == story_type_name(),
            r.story_point == Some(0i8),
            r.labels is None,
            r.custom_fields is None,
    {
        proof {
            reveal_strlit("Story");
            assert("Story"@ =~= story_type_name());
        }
        StoryRequest {
            project: None,
            summary: None,
            description: None,
            issuetype: Some(IssueType { name: String::from_str("Story") }),
            story_point: Some(0),
            labels: None,
            custom_fields: None,
        }
    }
}

/// The display name of the epic link field, `Epic Link`.
pub open spec fn epic_link_name() -> Seq<char> {
    seq!['E', 'p', 'i', 'c', ' ', 'L', 'i', 'n', 'k']
}

impl StoriesHandler {
    /// The search URL that lists the stories of an epic: the epic link
    /// field's JQL clause token, equated with the epic's key.  Fails with
    /// the unknown-field error exactly when the reverse map does not know
    /// the epic link field.
    pub fn search_url(&self, host: &str, epic: &str, reverse: &FieldMap) -> (r: Result<
        String,
        JiraError,
    >)
        ensures
            match r {
                Ok(u) => {
                    &&& lookup(reverse@, epic_link_name()) matches Some(c)
                    &&& u@ == host@ + crate::spec_rest_uri() + "/search?jql="@ + c + "="@
                        + epic@
                },
                Err(e) => {
                    &&& lookup(reverse@, epic_link_name()) is None
                    &&& e matches JiraError::UnknownField(nm) && nm@ == epic_link_name()
                },
            },
    {
        proof {
            reveal_strlit("Epic Link");
            assert("Epic Link"@ =~= epic_link_name());
        }
        let clause = match to_jql_clause("Epic Link", reverse) {
            Ok(c) => c,
            Err(e) => {
                return Err(e);
            },
        };
        let mut url: String = host.to_owned();
        url.append(crate::rest_uri());
        url.append("/search?jql=");
        url.append(clause.as_str());
        url.append("=");
        url.append(epic);
        Ok(url)
    }

    /// The endpoint bulk creation posts to.
    pub fn bulk_create_url(&self, host: &str) -> (r: String)
        ensures
            r@ == host@ + crate::spec_rest_uri() + "/issue/bulk"@,
    {
        let mut url: String = host.to_owned();
        url.append(crate::rest_uri());
        url.append("/issue/bulk");
        url
    }
}

} // verus!

