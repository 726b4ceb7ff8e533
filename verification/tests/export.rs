use portal_api::export::{
    bundle_files, serve_manifest, download_name, export_format, travelling, ExportFormat, endpoints_by_slug, kind_filter, owner, readme, Exported, reference_by_name, strip_secret_values, valid_revision, IndexHeader,
    ModelFiles,
};
use portal_api::resource::{Envelope, Metadata};
use portal_api::error::ApiError;
use portal_api::json::JsonValue;
use portal_api::resource::KindInfo;

fn text(s: &str) -> JsonValue {
    JsonValue::Str(s.to_string())
}

fn object(members: Vec<(&str, JsonValue)>) -> JsonValue {
    JsonValue::Object(members.into_iter().map(|(k, v)| (k.to_string(), v)).collect())
}

/// The JSON text of a value, as a document would carry it.
fn dump(v: &JsonValue) -> String {
    match v {
        JsonValue::Null => "null".to_string(),
        JsonValue::Bool(b) => b.to_string(),
        JsonValue::Number(n) => n.clone(),
        JsonValue::Str(s) => format!("{s:?}"),
        JsonValue::Array(items) => {
            format!("[{}]", items.iter().map(dump).collect::<Vec<_>>().join(","))
        }
        JsonValue::Object(members) => format!(
            "{{{}}}",
            members
                .iter()
                .map(|(k, v)| format!("{k:?}:{}", dump(v)))
                .collect::<Vec<_>>()
                .join(",")
        ),
    }
}

fn at<'a>(v: &'a JsonValue, key: &str) -> &'a JsonValue {
    match v {
        JsonValue::Object(members) => &members.iter().find(|(k, _)| k == key).expect("a member").1,
        _ => panic!("not an object"),
    }
}

fn catalogue() -> Vec<KindInfo> {
    vec![
        KindInfo { plural: "endpoints".to_string(), kind: "Endpoint".to_string() },
        KindInfo { plural: "pipelines".to_string(), kind: "Pipeline".to_string() },
        KindInfo { plural: "contextspaces".to_string(), kind: "ContextSpace".to_string() },
    ]
}

#[test]
fn secret_values_are_emptied_wherever_they_hide() {
    let mut spec = object(vec![
        ("url", text("mqtt://broker")),
        (
            "auth",
            object(vec![
                ("password", text("hunter2")),
                ("secretRef", object(vec![("name", text("mqtt")), ("key", text("password"))])),
            ]),
        ),
        ("outputs", JsonValue::Array(vec![object(vec![("apiKey", text("jc_dead_beef"))])])),
    ]);
    strip_secret_values(&mut spec);
    let dumped = dump(&spec);
    assert!(!dumped.contains("hunter2"), "{dumped}");
    assert!(!dumped.contains("jc_dead_beef"), "{dumped}");
    assert_eq!(*at(at(&spec, "auth"), "password"), text(""));
    assert_eq!(
        *at(at(at(&spec, "auth"), "secretRef"), "key"),
        text("password"),
        "a reference to a secret is not a secret and must survive the export"
    );
    assert_eq!(*at(&spec, "url"), text("mqtt://broker"));
}

#[test]
fn a_revision_is_a_commit_or_a_branch_and_never_a_path_traversal() {
    assert!(valid_revision("main"));
    assert!(valid_revision("8c56954a1f0e2b3c4d5e6f708192a3b4c5d6e7f8"));
    assert!(valid_revision("release/2026-09"));
    assert!(!valid_revision(""));
    assert!(!valid_revision("../../etc/passwd"));
    assert!(!valid_revision("main;rm -rf"));
    assert!(!valid_revision("--upload-pack=x"));
    assert!(!valid_revision(&"a".repeat(129)));
}

#[test]
fn an_unknown_plural_filters_everything_out_rather_than_nothing() {
    let filter = kind_filter(&catalogue(), Some("endpoints,teapots")).expect("a filter");
    assert!(filter.contains(&"Endpoint".to_string()));
    assert!(filter.contains(&"unknown:teapots".to_string()));
    assert!(kind_filter(&catalogue(), None).is_none(), "no filter is not an empty one");
    assert!(kind_filter(&catalogue(), Some(" , ")).is_none());
}

#[test]
fn a_reference_to_this_organization_is_exported_by_name_and_another_instance_keeps_its_slug() {
    let endpoints = vec![(
        "scsd2eehkx42n53z2zyd6vshfh7s7irf".to_owned(),
        "helsinki".to_owned(),
        "helsinki-bikes".to_owned(),
    )];
    let mut ours = object(vec![
        ("endpointSlug", text("scsd2eehkx42n53z2zyd6vshfh7s7irf")),
        ("alias", text("city-bikes")),
    ]);
    reference_by_name(&mut ours, &endpoints);
    assert_eq!(
        ours,
        object(vec![
            ("alias", text("city-bikes")),
            ("endpointRef", object(vec![("project", text("helsinki")), ("name", text("helsinki-bikes"))])),
        ])
    );
    let theirs = || object(vec![("endpointSlug", text("zt4qm7ge2xdv6ksb3ncf5arw2y")), ("alias", text("x"))]);
    let mut t = theirs();
    reference_by_name(&mut t, &endpoints);
    assert_eq!(t, theirs(), "a slug of another instance is all there is to name it by");
    let already = || {
        object(vec![
            ("endpointRef", object(vec![("project", text("a")), ("name", text("b"))])),
            ("alias", text("x")),
        ])
    };
    let mut a = already();
    reference_by_name(&mut a, &endpoints);
    assert_eq!(a, already());
}

fn endpoint(name: &str, namespace: Option<&str>, spec: JsonValue) -> Envelope {
    Envelope {
        api_version: "joinedcontext.com/v1".to_string(),
        kind: "Endpoint".to_string(),
        metadata: Metadata {
            name: name.to_string(),
            namespace: namespace.map(str::to_string),
            labels: vec![],
            annotations: vec![],
            title: vec![],
            description: vec![],
        },
        spec,
        phase: None,
    }
}

#[test]
fn the_organizations_endpoints_are_known_by_slug() {
    let envs = vec![
        endpoint("helsinki-bikes", Some("helsinki"), object(vec![("slug", text("hel-bikes"))])),
        endpoint("no-slug", Some("helsinki"), object(vec![])),
        endpoint("no-project", None, object(vec![("slug", text("x"))])),
        endpoint("espoo-air", Some("espoo"), object(vec![("slug", text("esp-air"))])),
    ];
    assert_eq!(
        endpoints_by_slug(&envs),
        vec![
            ("hel-bikes".to_string(), "helsinki".to_string(), "helsinki-bikes".to_string()),
            ("esp-air".to_string(), "espoo".to_string(), "espoo-air".to_string()),
        ]
    );
}

fn header(omitted: usize) -> IndexHeader {
    IndexHeader {
        project: "helsinki".to_string(),
        revision: "main".to_string(),
        exporter: "aino@example.org".to_string(),
        omitted,
    }
}

#[test]
fn a_readme_lists_each_kind_and_counts_the_rest() {
    let names: Vec<String> = (1..=14).map(|n| format!("e{n}")).collect();
    let by_kind = vec![("Endpoint".to_string(), names), ("Project".to_string(), vec!["helsinki".to_string()])];
    let text = readme(&header(0), &by_kind, &vec![], true);
    assert!(text.starts_with(
        "# Project helsinki\n\nThe configuration of project `helsinki` as the repository held it at revision `main`, exported by aino@example.org. It can be imported again as it is:"
    ));
    assert!(text.contains("- `projects/helsinki/bundle.yaml`: the index of this download.\n"));
    assert!(text.contains(
        "| Endpoint | 14 (`e1`, `e2`, `e3`, `e4`, `e5`, `e6`, `e7`, `e8`, `e9`, `e10`, `e11`, `e12` and 2 more) | A published door onto a space: its address, audience, formats and limits. | `schemas/kinds/Endpoint.schema.json` |\n"
    ));
    assert!(text.ends_with(
        "| Project | 1 (`helsinki`) | A workspace of one department or programme, holding its spaces, pipelines and applications. | `schemas/kinds/Project.schema.json` |\n"
    ));
    assert!(!text.contains("## Data models"));
}

#[test]
fn a_readme_says_what_of_a_model_is_missing_and_what_was_left_out() {
    let models = vec![(
        "air".to_string(),
        ModelFiles {
            classes: vec!["AirQualityObserved".to_string(), "Device".to_string()],
            linkml: Some("id: air".to_string()),
            json_schema: None,
            missing: vec!["the JSON Schema could not be generated".to_string()],
        },
    )];
    let text = readme(&header(3), &vec![("DataModel".to_string(), vec!["air".to_string()])], &models, false);
    assert!(text.contains("one per `items` entry of the JSON list.\n"));
    assert!(text.contains("| DataModel | 1 (`air`) | "));
    assert!(text.contains("| `schemas.kinds.DataModel` |\n"));
    assert!(text.contains(
        "\n## Data models\n\n| Model | Entity types | LinkML | JSON Schema |\n|---|---|---|---|\n| air | AirQualityObserved, Device | `schemas.models.air.linkml` | missing |\n"
    ));
    assert!(text.ends_with(
        "\n## Missing\n\n- air: the JSON Schema could not be generated\n\n3 files of the project are not in this download: the repository did not hand them back as text.\n"
    ));
}

fn exported(path: &str, content: &str, manifest: Option<Envelope>) -> Exported {
    Exported { path: path.to_string(), content: content.to_string(), manifest }
}

#[test]
fn a_native_file_belongs_to_the_manifest_beside_it() {
    let mut pipeline = endpoint("aq", Some("helsinki"), object(vec![]));
    pipeline.kind = "Pipeline".to_string();
    let mut model = endpoint("air", Some("helsinki"), object(vec![]));
    model.kind = "DataModel".to_string();
    let files = vec![
        exported("projects/helsinki/spaces/air/pipelines/aq/pipeline.yaml", "", Some(pipeline)),
        exported("projects/helsinki/spaces/air/datamodels/air.yaml", "", Some(model)),
        exported("projects/helsinki/spaces/air/pipelines/aq/bento.yaml", "input: {}", None),
    ];
    assert_eq!(
        owner("projects/helsinki/spaces/air/pipelines/aq/bento.yaml", &files).map(|e| e.metadata.name.as_str()),
        Some("aq")
    );
    assert_eq!(
        owner("projects/helsinki/spaces/air/datamodels/air.linkml.yaml", &files).map(|e| e.metadata.name.as_str()),
        Some("air")
    );
    assert!(owner("projects/helsinki/spaces/air/datamodels/water.linkml.yaml", &files).is_none());
    assert!(owner("README.md", &files).is_none());
}

#[test]
fn the_bundle_checksums_every_file_in_path_order() {
    let files = vec![exported("projects/helsinki/b.yaml", "a", None), exported("projects/helsinki/a.yaml", "", None)];
    assert_eq!(
        bundle_files(&files),
        vec![
            (
                "projects/helsinki/a.yaml".to_string(),
                "e3b0c44298fc1c149afbf4c8996fb92427ae41e4649b934ca495991b7852b855".to_string()
            ),
            (
                "projects/helsinki/b.yaml".to_string(),
                "ca978112ca1bbdcafac231b39a23dc4da786eff8147c4e72b9807785afee48bb".to_string()
            ),
        ]
    );
}

#[test]
fn a_native_file_travels_with_its_manifest_or_under_its_directory() {
    let mut pipeline = endpoint("aq", Some("helsinki"), object(vec![]));
    pipeline.kind = "Pipeline".to_string();
    let files = vec![
        exported("projects/helsinki/spaces/air/pipelines/aq/pipeline.yaml", "", Some(pipeline)),
        exported("projects/helsinki/spaces/air/pipelines/aq/bento.yaml", "input: {}", None),
        exported(
            "projects/helsinki/spaces/air/endpoints/air-public.yaml",
            "",
            Some(endpoint("air-public", Some("helsinki"), object(vec![]))),
        ),
        exported("projects/helsinki/spaces/air/pipelines/orphan/main.py", "print()", None),
    ];
    let kinds = vec!["Pipeline".to_string()];
    assert_eq!(travelling(&catalogue(), &files, Some(&kinds), None), vec![true, true, false, true]);
    let names = vec!["aq".to_string()];
    assert_eq!(travelling(&catalogue(), &files, None, Some(&names)), vec![true, true, false, false]);
    assert_eq!(travelling(&catalogue(), &files, None, None), vec![true, true, true, true]);
}

#[test]
fn an_export_is_yaml_json_or_zip_and_named_after_its_revision() {
    assert_eq!(export_format(None).unwrap(), ExportFormat::Yaml);
    assert_eq!(export_format(Some("json")).unwrap(), ExportFormat::Json);
    assert_eq!(export_format(Some("zip")).unwrap(), ExportFormat::Zip);
    match export_format(Some("xml")) {
        Err(ApiError::BadRequest(m)) => assert_eq!(m, "format 'xml' is not yaml, json or zip"),
        _ => panic!("expected a 400"),
    }
    assert_eq!(download_name("helsinki", "0123456789abcdef", "zip"), "helsinki-0123456.zip");
    assert_eq!(download_name("helsinki", "main", "yaml"), "helsinki-main.yaml");
}

#[test]
fn a_served_manifest_carries_no_status_no_build_digest_and_no_secret() {
    let mut share = endpoint(
        "air-from-helsinki",
        Some("espoo"),
        object(vec![
            ("endpointSlug", text("scsd2eehkx42n53z2zyd6vshfh7s7irf")),
            ("auth", object(vec![("password", text("hunter2"))])),
        ]),
    );
    share.kind = "SharedSpaceReference".to_string();
    share.phase = Some("Ready".to_string());
    share.metadata.annotations = vec![
        ("joinedcontext.com/image-digest".to_string(), "sha256:ab".to_string()),
        ("team".to_string(), "mobility".to_string()),
    ];
    let built = vec!["joinedcontext.com/image-digest".to_string()];
    let endpoints =
        vec![("scsd2eehkx42n53z2zyd6vshfh7s7irf".to_string(), "helsinki".to_string(), "helsinki-air".to_string())];
    serve_manifest(&mut share, &built, &endpoints);
    assert_eq!(share.phase, None);
    assert_eq!(share.metadata.annotations, vec![("team".to_string(), "mobility".to_string())]);
    assert_eq!(
        share.spec,
        object(vec![
            ("auth", object(vec![("password", text(""))])),
            ("endpointRef", object(vec![("project", text("helsinki")), ("name", text("helsinki-air"))])),
        ])
    );
}
