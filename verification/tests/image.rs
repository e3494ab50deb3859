use imgpuller::routes::image::{build_from_image, parse_image_ref, parse_registry, split_repo_tag};
use imgpuller::routes::pull::{plan_pull, removal_names};

fn triple(a: &str, b: &str, c: &str) -> (String, String, String) {
    (a.to_string(), b.to_string(), c.to_string())
}

#[test]
fn registry_defaults_to_docker_io() {
    assert_eq!(parse_registry("alpine"), "docker.io");
    assert_eq!(parse_registry("alpine:3.19"), "alpine:3.19");
    assert_eq!(parse_registry("library/alpine"), "docker.io");
    assert_eq!(parse_registry("library/alpine:3.19"), "docker.io");
    assert_eq!(parse_registry(""), "docker.io");
    assert_eq!(parse_registry("/alpine"), "docker.io");
}

#[test]
fn registry_is_first_segment_when_it_names_a_host() {
    assert_eq!(parse_registry("gcr.io/project/image:tag"), "gcr.io");
    assert_eq!(parse_registry("localhost/image"), "localhost");
    assert_eq!(parse_registry("localhost:5000/image"), "localhost:5000");
    assert_eq!(parse_registry("registry:5000/a/b"), "registry:5000");
    assert_eq!(parse_registry("quay.io"), "quay.io");
    assert_eq!(parse_registry("Localhost/image"), "docker.io");
    assert_eq!(parse_registry("alpha:latest"), "alpha:latest");
    assert_eq!(parse_registry("beta:latest"), "beta:latest");
}

#[test]
fn jobs_at_distinct_hosts_have_distinct_keys() {
    assert_ne!(parse_registry("gcr.io/a"), parse_registry("quay.io/a"));
    assert_eq!(parse_registry("gcr.io/a:1"), parse_registry("gcr.io/b/c:2"));
}

#[test]
fn splitting_repo_and_tag() {
    assert_eq!(split_repo_tag("alpine:3.19"), ("alpine".to_string(), "3.19".to_string()));
    assert_eq!(split_repo_tag("alpine"), ("alpine".to_string(), "latest".to_string()));
    assert_eq!(
        split_repo_tag("localhost:5000/img:v1"),
        ("localhost:5000/img".to_string(), "v1".to_string())
    );
    assert_eq!(
        split_repo_tag("localhost:5000/img"),
        ("localhost".to_string(), "5000/img".to_string())
    );
    assert_eq!(split_repo_tag("img:"), ("img".to_string(), "".to_string()));
    assert_eq!(split_repo_tag(":tag"), ("".to_string(), "tag".to_string()));
    assert_eq!(split_repo_tag(""), ("".to_string(), "latest".to_string()));
}

#[test]
fn parsing_image_references() {
    assert_eq!(parse_image_ref("alpine"), triple("docker.io", "alpine", "latest"));
    assert_eq!(parse_image_ref("alpine:3.19"), triple("alpine:3.19", "", "latest"));
    assert_eq!(parse_image_ref("library/alpine:3.19"), triple("docker.io", "library/alpine", "3.19"));
    assert_eq!(parse_image_ref("gcr.io/proj/img:v2"), triple("gcr.io", "proj/img", "v2"));
    assert_eq!(parse_image_ref("gcr.io/proj/img"), triple("gcr.io", "proj/img", "latest"));
    assert_eq!(parse_image_ref("localhost/img:1"), triple("localhost", "img", "1"));
    assert_eq!(parse_image_ref("localhost:5000/a/b:1"), triple("localhost:5000", "a/b", "1"));
    assert_eq!(parse_image_ref("quay.io"), triple("quay.io", "", "latest"));
    assert_eq!(parse_image_ref(""), triple("docker.io", "", "latest"));
    assert_eq!(parse_image_ref("/a/b:1"), triple("docker.io", "", "latest"));
    assert_eq!(parse_image_ref("a/b/c"), triple("docker.io", "a/b/c", "latest"));
}

#[test]
fn building_the_name_to_ask_for() {
    assert_eq!(build_from_image("docker.io", "alpine"), "library/alpine");
    assert_eq!(build_from_image("docker.io", "bitnami/redis"), "bitnami/redis");
    assert_eq!(build_from_image("gcr.io", "proj/img"), "gcr.io/proj/img");
    assert_eq!(build_from_image("localhost:5000", "img"), "localhost:5000/img");
    assert_eq!(build_from_image("docker.io", ""), "library/");
    assert_eq!(build_from_image("", "x"), "/x");
}

#[test]
fn planning_a_pull() {
    let plan = plan_pull("library/alpine:3.19");
    assert_eq!(plan.registry_host, "docker.io");
    assert_eq!(plan.repo, "library/alpine");
    assert_eq!(plan.tag, "3.19");
    assert_eq!(plan.short_ref, "library/alpine:3.19");
    assert_eq!(plan.full_ref, "docker.io/library/alpine:3.19");
    assert_eq!(plan.from_image, "library/alpine");

    let plan = plan_pull("alpine");
    assert_eq!(plan.repo, "alpine");
    assert_eq!(plan.tag, "latest");
    assert_eq!(plan.short_ref, "alpine:latest");
    assert_eq!(plan.full_ref, "docker.io/alpine:latest");
    assert_eq!(plan.from_image, "library/alpine");

    let plan = plan_pull("gcr.io/proj/img:v2");
    assert_eq!(plan.registry_host, "gcr.io");
    assert_eq!(plan.repo, "gcr.io/proj/img");
    assert_eq!(plan.tag, "v2");
    assert_eq!(plan.short_ref, "gcr.io/proj/img:v2");
    assert_eq!(plan.full_ref, "gcr.io/gcr.io/proj/img:v2");
    assert_eq!(plan.from_image, "gcr.io/gcr.io/proj/img");
}

#[test]
fn names_to_remove() {
    let tags = vec!["a:1".to_string(), "a:2".to_string()];
    let digests = vec!["a@sha256:ff".to_string()];
    assert_eq!(
        removal_names(Some("sha256:01"), &tags, &digests),
        vec!["sha256:01", "a:1", "a:2", "a@sha256:ff"]
    );
    assert_eq!(removal_names(None, &tags, &Vec::new()), vec!["a:1", "a:2"]);
    assert!(removal_names(None, &Vec::new(), &Vec::new()).is_empty());
}
