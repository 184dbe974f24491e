use tplcore::context::RenameSubmission;
use tplcore::context::UserRow;
use tplcore::environment::Environment;
use tplcore::environment::Mode;
use tplcore::environment::TemplateSource;
use tplcore::errors::ServiceError;
use tplcore::handlers::click_fragment;
use tplcore::handlers::index_page;
use tplcore::handlers::mypage_page;
use tplcore::handlers::rename_response;

fn prod_env(name: &str, text: &str) -> Environment {
    let mut env = Environment::new(Mode::ProdCached);
    assert!(env.add_source(name.to_string(), TemplateSource::Embedded { text: text.to_string() }));
    assert!(env.preload_all().is_ok());
    env
}

#[test]
fn index_page_greets_the_world_exactly_once() {
    let env = prod_env("index", "<p>Hello {{ name }}!</p>");
    let body = index_page(&env).unwrap();
    assert_eq!(body, "<p>Hello World!</p>");
    assert_eq!(body.matches("World").count(), 1);
}

#[test]
fn index_page_surfaces_store_failure() {
    let env = Environment::new(Mode::ProdCached);
    assert_eq!(index_page(&env).unwrap_err(), ServiceError::TemplateNotFound);
}

#[test]
fn click_fragment_is_fixed_and_idempotent() {
    let first = click_fragment();
    let second = click_fragment();
    assert_eq!(first, "<h2>You clicked the button</h2>");
    assert_eq!(first.as_bytes(), second.as_bytes());
}

#[test]
fn mypage_lists_one_entry_per_row_in_fetch_order() {
    let env = prod_env(
        "mypage",
        "{% for u in users %}<li>{{ u.id }}:{{ u.name }}</li>{% endfor %}",
    );
    let users = vec![
        UserRow { id: 7, name: "Ada".to_string() },
        UserRow { id: 2, name: "Grace".to_string() },
        UserRow { id: 5, name: "Edsger".to_string() },
    ];
    let body = mypage_page(&env, users).unwrap();
    assert_eq!(body, "<li>7:Ada</li><li>2:Grace</li><li>5:Edsger</li>");
    assert_eq!(body.matches("<li>").count(), 3);
}

#[test]
fn mypage_with_no_rows_lists_nothing() {
    let env = prod_env(
        "mypage",
        "{% for u in users %}<li>{{ u.name }}</li>{% endfor %}",
    );
    let body = mypage_page(&env, Vec::new()).unwrap();
    assert_eq!(body, "");
}

#[test]
fn rename_echoes_the_name_with_the_fixed_trigger_header() {
    let (body, header) = rename_response(RenameSubmission { name: "Alice".to_string() });
    assert_eq!(body, "Alice");
    assert_eq!(
        header,
        "{\"namechanged\":{\"message\":\"Name successfully changed!\"}}"
    );
}

#[test]
fn error_status_codes_separate_client_from_server_faults() {
    assert_eq!(ServiceError::FormDecodeError.status_code(), 400);
    assert!(ServiceError::FormDecodeError.is_client_fault());
    assert_eq!(ServiceError::TemplateNotFound.status_code(), 500);
    assert_eq!(ServiceError::TemplateSyntaxError.status_code(), 500);
    assert_eq!(ServiceError::RenderError.status_code(), 500);
    assert_eq!(ServiceError::DataAccessError.status_code(), 500);
    assert!(!ServiceError::DataAccessError.is_client_fault());
}
