//! Story creation: merge precedence, payload shape and the batch body.

use jira_cli::epics::{EpicHandler, EpicOps};
use jira_cli::errors::JiraError;
use jira_cli::field_map::FieldMap;
use jira_cli::json::to_json_text;
use jira_cli::json_parse::from_json_text;
use jira_cli::projects::{ProjectDisplay, ProjectHandler};
use jira_cli::stories::{
    IssueType, ProjectKey, Stories, StoriesHandler, Story, StoryOps, StoryRequest,
    StoryRequestFields,
};
use jira_cli::structs::{issue_header_row, issue_row, AuthOptions, Fields, Issue};

fn no_args() -> StoryOps {
    StoryOps {
        project: None,
        epic: None,
        summary: None,
        description: None,
        labels: None,
        template_path: None,
        file: None,
    }
}

fn empty_template() -> Story {
    Story {
        project: None,
        summary: None,
        description: None,
        issuetype: None,
        labels: None,
        custom_fields: None,
    }
}

#[test]
fn template_summary_with_default_issuetype() {
    // template {summary: "T1"}, CLI args {summary: None}
    let template = Story { summary: Some("T1".to_string()), ..empty_template() };
    let forward = FieldMap::new();
    let payload = StoriesHandler.create_story(&no_args(), &template, &forward).unwrap();
    assert_eq!(
        to_json_text(&payload),
        "{\"fields\":{\"summary\":\"T1\",\"issuetype\":{\"name\":\"Story\"}}}"
    );
}

#[test]
fn cli_value_wins_over_template() {
    let template = Story {
        project: Some(ProjectKey { key: "TPL".to_string() }),
        summary: Some("from template".to_string()),
        description: Some("template description".to_string()),
        labels: Some(vec!["tpl".to_string()]),
        ..empty_template()
    };
    let args = StoryOps {
        project: Some("CLI".to_string()),
        summary: Some("from cli".to_string()),
        description: Some("cli description".to_string()),
        labels: Some(vec!["a".to_string(), "b".to_string()]),
        ..no_args()
    };
    let forward = FieldMap::new();
    let payload = StoriesHandler.create_story(&args, &template, &forward).unwrap();
    assert_eq!(
        to_json_text(&payload),
        "{\"fields\":{\"project\":{\"key\":\"CLI\"},\"summary\":\"from cli\",\
         \"description\":\"cli description\",\"labels\":[\"a\",\"b\"],\
         \"issuetype\":{\"name\":\"Story\"}}}"
    );
}

#[test]
fn template_fills_absent_cli_values() {
    let template = Story {
        project: Some(ProjectKey { key: "TPL".to_string() }),
        summary: Some("tpl summary".to_string()),
        issuetype: Some(IssueType { name: "Task".to_string() }),
        ..empty_template()
    };
    let payload = StoriesHandler.create_story(&no_args(), &template, &FieldMap::new()).unwrap();
    assert_eq!(
        to_json_text(&payload),
        "{\"fields\":{\"project\":{\"key\":\"TPL\"},\"summary\":\"tpl summary\",\
         \"issuetype\":{\"name\":\"Task\"}}}"
    );
}

#[test]
fn absent_everywhere_is_omitted() {
    let payload = StoriesHandler.create_story(&no_args(), &empty_template(), &FieldMap::new())
        .unwrap();
    assert_eq!(to_json_text(&payload), "{\"fields\":{\"issuetype\":{\"name\":\"Story\"}}}");
}

#[test]
fn custom_field_is_translated() {
    // template custom field {"Epic Link": "EPIC-9"} with a cache binding
    // "Epic Link" to customfield_10101
    let template = Story {
        custom_fields: Some(vec![("Epic Link".to_string(), "EPIC-9".to_string())]),
        ..empty_template()
    };
    let mut forward = FieldMap::new();
    forward.insert("Epic Link".to_string(), "customfield_10101".to_string());
    let payload = StoriesHandler.create_story(&no_args(), &template, &forward).unwrap();
    assert_eq!(
        to_json_text(&payload),
        "{\"fields\":{\"issuetype\":{\"name\":\"Story\"},\"customfield_10101\":\"EPIC-9\"}}"
    );
}

#[test]
fn unknown_custom_field_aborts_without_payload() {
    // requesting "Team" when the cache only contains "Epic Link"
    let template = Story {
        summary: Some("T1".to_string()),
        custom_fields: Some(vec![("Team".to_string(), "X".to_string())]),
        ..empty_template()
    };
    let mut forward = FieldMap::new();
    forward.insert("Epic Link".to_string(), "customfield_10101".to_string());
    match StoriesHandler.create_story(&no_args(), &template, &forward) {
        Err(JiraError::UnknownField(n)) => assert_eq!(n, "Team"),
        Ok(_) => panic!("a partial payload must not be emitted"),
        Err(_) => panic!("expected the unknown-field error"),
    }
}

#[test]
fn duplicate_custom_field_last_write_wins() {
    let template = Story {
        custom_fields: Some(vec![
            ("Epic Link".to_string(), "FIRST".to_string()),
            ("Epic Link".to_string(), "SECOND".to_string()),
        ]),
        ..empty_template()
    };
    let mut forward = FieldMap::new();
    forward.insert("Epic Link".to_string(), "customfield_10101".to_string());
    let payload = StoriesHandler.create_story(&no_args(), &template, &forward).unwrap();
    // one member per wire key, holding the later value
    assert_eq!(
        to_json_text(&payload),
        "{\"fields\":{\"issuetype\":{\"name\":\"Story\"},\"customfield_10101\":\"SECOND\"}}"
    );
}

#[test]
fn duplicate_custom_field_keeps_first_position() {
    let template = Story {
        custom_fields: Some(vec![
            ("Epic Link".to_string(), "FIRST".to_string()),
            ("Team".to_string(), "Blue".to_string()),
            ("Epic Link".to_string(), "SECOND".to_string()),
        ]),
        ..empty_template()
    };
    let mut forward = FieldMap::new();
    forward.insert("Epic Link".to_string(), "customfield_10101".to_string());
    forward.insert("Team".to_string(), "customfield_10500".to_string());
    let payload = StoriesHandler.create_story(&no_args(), &template, &forward).unwrap();
    // the replaced binding stays where the key first appeared
    assert_eq!(
        to_json_text(&payload),
        "{\"fields\":{\"issuetype\":{\"name\":\"Story\"},\
         \"customfield_10101\":\"SECOND\",\"customfield_10500\":\"Blue\"}}"
    );
}

#[test]
fn payload_round_trips_through_the_codec() {
    let template = Story {
        summary: Some("summary with \"quotes\" and\nnewline".to_string()),
        labels: Some(vec!["l1".to_string()]),
        ..empty_template()
    };
    let payload = StoriesHandler.create_story(&no_args(), &template, &FieldMap::new()).unwrap();
    let text = to_json_text(&payload);
    let back = from_json_text(&text).unwrap();
    assert_eq!(to_json_text(&back), text);
}

#[test]
fn batch_merges_each_story_over_the_template() {
    let template = StoryRequest {
        project: Some(ProjectKey { key: "ABC".to_string() }),
        summary: None,
        description: Some("shared".to_string()),
        issuetype: None,
        story_point: Some(3),
        labels: None,
        custom_fields: None,
    };
    let batch = Stories {
        issue_updates: vec![
            StoryRequestFields {
                fields: StoryRequest {
                    project: None,
                    summary: Some("first".to_string()),
                    description: None,
                    issuetype: None,
                    story_point: None,
                    labels: None,
                    custom_fields: None,
                },
            },
            StoryRequestFields {
                fields: StoryRequest {
                    project: Some(ProjectKey { key: "OTHER".to_string() }),
                    summary: Some("second".to_string()),
                    description: Some("own".to_string()),
                    issuetype: None,
                    story_point: None,
                    labels: None,
                    custom_fields: None,
                },
            },
        ],
    };
    let body = StoriesHandler.build_batch(&batch, &template, &FieldMap::new()).unwrap();
    assert_eq!(
        to_json_text(&body),
        "{\"issueUpdates\":[\
         {\"fields\":{\"project\":{\"key\":\"ABC\"},\"summary\":\"first\",\
         \"description\":\"shared\",\"issuetype\":{\"name\":\"Story\"}}},\
         {\"fields\":{\"project\":{\"key\":\"OTHER\"},\"summary\":\"second\",\
         \"description\":\"own\",\"issuetype\":{\"name\":\"Story\"}}}]}"
    );
}

#[test]
fn batch_duplicate_custom_field_last_write_wins() {
    let template = StoryRequest {
        project: None,
        summary: None,
        description: None,
        issuetype: None,
        story_point: None,
        labels: None,
        custom_fields: None,
    };
    let batch = Stories {
        issue_updates: vec![StoryRequestFields {
            fields: StoryRequest {
                project: None,
                summary: Some("s".to_string()),
                description: None,
                issuetype: None,
                story_point: None,
                labels: None,
                custom_fields: Some(vec![
                    ("Epic Link".to_string(), "OLD".to_string()),
                    ("Epic Link".to_string(), "NEW".to_string()),
                ]),
            },
        }],
    };
    let mut forward = FieldMap::new();
    forward.insert("Epic Link".to_string(), "customfield_10101".to_string());
    let body = StoriesHandler.build_batch(&batch, &template, &forward).unwrap();
    assert_eq!(
        to_json_text(&body),
        "{\"issueUpdates\":[{\"fields\":{\"summary\":\"s\",\
         \"issuetype\":{\"name\":\"Story\"},\"customfield_10101\":\"NEW\"}}]}"
    );
}

#[test]
fn batch_fails_on_unknown_custom_field() {
    let template = StoryRequest {
        project: None,
        summary: None,
        description: None,
        issuetype: None,
        story_point: None,
        labels: None,
        custom_fields: Some(vec![("Team".to_string(), "X".to_string())]),
    };
    let batch = Stories {
        issue_updates: vec![StoryRequestFields {
            fields: StoryRequest {
                project: None,
                summary: Some("s".to_string()),
                description: None,
                issuetype: None,
                story_point: None,
                labels: None,
                custom_fields: None,
            },
        }],
    };
    match StoriesHandler.build_batch(&batch, &template, &FieldMap::new()) {
        Err(JiraError::UnknownField(n)) => assert_eq!(n, "Team"),
        _ => panic!("expected the unknown-field error"),
    }
}

#[test]
fn new_or_template_prefers_the_story() {
    let template = StoryRequest {
        project: Some(ProjectKey { key: "TPL".to_string() }),
        summary: Some("tpl".to_string()),
        description: None,
        issuetype: None,
        story_point: Some(5),
        labels: Some(vec!["t".to_string()]),
        custom_fields: None,
    };
    let story = StoryRequest {
        project: None,
        summary: Some("mine".to_string()),
        description: None,
        issuetype: None,
        story_point: Some(8),
        labels: None,
        custom_fields: None,
    };
    let merged = StoryRequestFields::new_or_template(story, &template);
    assert_eq!(merged.fields.summary.as_deref(), Some("mine"));
    assert_eq!(merged.fields.project.as_ref().map(|p| p.key.as_str()), Some("TPL"));
    assert_eq!(merged.fields.story_point, Some(8));
    assert_eq!(merged.fields.labels.as_ref().map(|v| v.len()), Some(1));
    // neither side named an issue type: the structural default fills it
    assert_eq!(merged.fields.issuetype.map(|t| t.name), Some("Story".to_string()));
}

#[test]
fn new_or_template_issuetype_precedence() {
    let story_typed = StoryRequest {
        project: None,
        summary: None,
        description: None,
        issuetype: Some(IssueType { name: "Bug".to_string() }),
        story_point: None,
        labels: None,
        custom_fields: None,
    };
    let template_typed = StoryRequest {
        project: None,
        summary: None,
        description: None,
        issuetype: Some(IssueType { name: "Task".to_string() }),
        story_point: None,
        labels: None,
        custom_fields: None,
    };
    let merged = StoryRequestFields::new_or_template(story_typed, &template_typed);
    assert_eq!(merged.fields.issuetype.map(|t| t.name), Some("Bug".to_string()));
    let untyped = StoryRequest {
        project: None,
        summary: None,
        description: None,
        issuetype: None,
        story_point: None,
        labels: None,
        custom_fields: None,
    };
    let template_typed = StoryRequest {
        project: None,
        summary: None,
        description: None,
        issuetype: Some(IssueType { name: "Task".to_string() }),
        story_point: None,
        labels: None,
        custom_fields: None,
    };
    let merged = StoryRequestFields::new_or_template(untyped, &template_typed);
    assert_eq!(merged.fields.issuetype.map(|t| t.name), Some("Task".to_string()));
}

#[test]
fn story_search_url_uses_the_clause_token() {
    let mut reverse = FieldMap::new();
    reverse.insert("Epic Link".to_string(), "cf[10101]".to_string());
    let url = StoriesHandler.search_url("https://tracker.example", "EPIC-7", &reverse).unwrap();
    assert_eq!(url, "https://tracker.example/rest/api/2/search?jql=cf[10101]=EPIC-7");
}

#[test]
fn story_search_url_fails_without_the_epic_link_field() {
    let reverse = FieldMap::new();
    match StoriesHandler.search_url("https://tracker.example", "EPIC-7", &reverse) {
        Err(JiraError::UnknownField(n)) => assert_eq!(n, "Epic Link"),
        _ => panic!("expected the unknown-field error"),
    }
}

#[test]
fn bulk_create_url_shape() {
    assert_eq!(
        StoriesHandler.bulk_create_url("https://tracker.example"),
        "https://tracker.example/rest/api/2/issue/bulk"
    );
}

#[test]
fn default_story_has_the_default_issuetype() {
    let story = Story::default();
    assert_eq!(story.issuetype.map(|t| t.name), Some("Story".to_string()));
    assert!(story.summary.is_none());
    let request = StoryRequest::default();
    assert_eq!(request.story_point, Some(0));
    assert_eq!(request.issuetype.map(|t| t.name), Some("Story".to_string()));
}

#[test]
fn default_auth_options_point_at_localhost() {
    let a = AuthOptions::default();
    assert_eq!(a.host, "localhost");
    assert!(a.user.is_none());
    assert!(a.pass.is_none());
}

#[test]
fn listing_urls_and_rows() {
    let epic_url = EpicHandler.search_url("https://t.example", "ABC");
    assert_eq!(
        epic_url,
        "https://t.example/rest/api/2/search?jql=PROJECT=ABC AND issuetype=Epic&fields=summary,description"
    );
    let ops = EpicOps { project_key: "ABC".to_string() };
    assert_eq!(ops.project_key, "ABC");
    assert_eq!(ProjectHandler.list_url("https://t.example"), "https://t.example/rest/api/2/project");
    let row = ProjectHandler.project_row(&ProjectDisplay {
        name: "Name".to_string(),
        key: "KEY".to_string(),
        id: "1".to_string(),
    });
    assert_eq!(row, vec!["KEY".to_string(), "Name".to_string(), "1".to_string()]);
    assert_eq!(ProjectHandler.project_header_row()[0], "Key");
    let issue = Issue {
        expand: String::new(),
        id: "42".to_string(),
        issue_link: "https://t.example/issue/42".to_string(),
        key: "ABC-42".to_string(),
        fields: Some(Fields { summary: Some("a story".to_string()), description: None }),
    };
    let row = issue_row(&issue);
    assert_eq!(row[0], "a story");
    assert_eq!(row[1], "ABC-42");
    assert_eq!(issue_header_row()[3], "Link");
}
