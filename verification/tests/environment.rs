use tplcore::context::RenderContext;
use tplcore::environment::Environment;
use tplcore::environment::GuardPolicy;
use tplcore::environment::Mode;
use tplcore::environment::TemplateSource;
use tplcore::errors::ServiceError;
use tplcore::handlers::index_context;

fn embedded(text: &str) -> TemplateSource {
    TemplateSource::Embedded { text: text.to_string() }
}

fn file_backed(dir: &str, rel: &str) -> TemplateSource {
    TemplateSource::FileBacked { directory: dir.to_string(), relative_path: rel.to_string() }
}

#[test]
fn prod_preload_and_render() {
    let mut env = Environment::new(Mode::ProdCached);
    assert!(env.add_source("index".to_string(), embedded("<h1>Hello {{ name }}!</h1>")));
    assert!(env.preload_all().is_ok());
    let body = env.render(&"index".to_string(), &index_context()).unwrap();
    assert_eq!(body, "<h1>Hello World!</h1>");
}

#[test]
fn prod_repeat_renders_are_content_stable() {
    let mut env = Environment::new(Mode::ProdCached);
    assert!(env.add_source("index".to_string(), embedded("Hello {{ name }}!")));
    assert!(env.preload_all().is_ok());
    let first = env.render(&"index".to_string(), &index_context()).unwrap();
    let second = env.render(&"index".to_string(), &index_context()).unwrap();
    let third = env.render(&"index".to_string(), &index_context()).unwrap();
    assert_eq!(first, second);
    assert_eq!(second, third);
}

#[test]
fn preload_fails_fast_on_syntax_error() {
    let mut env = Environment::new(Mode::ProdCached);
    assert!(env.add_source("good".to_string(), embedded("fine")));
    assert!(env.add_source("bad".to_string(), embedded("{% broken")));
    assert_eq!(env.preload_all(), Err(ServiceError::TemplateSyntaxError));
}

#[test]
fn unknown_name_is_not_found() {
    let mut env = Environment::new(Mode::ProdCached);
    assert!(env.preload_all().is_ok());
    let r = env.render(&"absent".to_string(), &index_context());
    assert_eq!(r.unwrap_err(), ServiceError::TemplateNotFound);
    match env.resolve(&"absent".to_string()) {
        Err(ServiceError::TemplateNotFound) => {}
        other => panic!("unexpected resolution: {:?}", other.map(|_| ())),
    }
}

#[test]
fn missing_variable_is_a_render_error() {
    let mut env = Environment::new(Mode::ProdCached);
    assert!(env.add_source("page".to_string(), embedded("{{ absent_variable }}")));
    assert!(env.preload_all().is_ok());
    let r = env.render(&"page".to_string(), &index_context());
    assert_eq!(r.unwrap_err(), ServiceError::RenderError);
}

#[test]
fn add_source_rejects_duplicates_and_prod_files() {
    let mut env = Environment::new(Mode::ProdCached);
    assert!(env.add_source("index".to_string(), embedded("a")));
    assert!(!env.add_source("index".to_string(), embedded("b")));
    assert!(!env.add_source("disk".to_string(), file_backed("templates", "disk.html")));

    let mut dev = Environment::new(Mode::DevReload);
    assert!(dev.add_source("disk".to_string(), file_backed("templates", "disk.html")));
    assert!(!dev.add_source("disk".to_string(), file_backed("templates", "disk.html")));
}

#[test]
fn invalidate_is_a_noop_in_prod() {
    let mut env = Environment::new(Mode::ProdCached);
    assert!(env.add_source("index".to_string(), embedded("Hello {{ name }}!")));
    assert!(env.preload_all().is_ok());
    env.invalidate(&"index".to_string());
    let body = env.render(&"index".to_string(), &index_context()).unwrap();
    assert_eq!(body, "Hello World!");
}

#[test]
fn dev_render_fresh_reflects_edits_and_never_goes_missing() {
    let mut env = Environment::new(Mode::DevReload);
    assert!(env.add_source("index".to_string(), file_backed("templates", "index.html")));

    let v1 = env
        .render_fresh(&"index".to_string(), "one: {{ name }}".to_string(), &index_context())
        .unwrap();
    assert_eq!(v1, "one: World");

    let broken = env.render_fresh(
        &"index".to_string(),
        "{% broken".to_string(),
        &index_context(),
    );
    assert_eq!(broken.unwrap_err(), ServiceError::TemplateSyntaxError);

    let v2 = env
        .render_fresh(&"index".to_string(), "two: {{ name }}".to_string(), &index_context())
        .unwrap();
    assert_eq!(v2, "two: World");
}

#[test]
fn dev_render_fresh_on_unregistered_name_is_not_found() {
    let mut env = Environment::new(Mode::DevReload);
    let r = env.render_fresh(&"ghostly".to_string(), "text".to_string(), &index_context());
    assert_eq!(r.unwrap_err(), ServiceError::TemplateNotFound);
}

#[test]
fn dev_reload_leaves_other_entries_untouched() {
    let mut env = Environment::new(Mode::DevReload);
    assert!(env.add_source("a".to_string(), file_backed("templates", "a.html")));
    assert!(env.add_source("b".to_string(), file_backed("templates", "b.html")));
    let a = env
        .render_fresh(&"a".to_string(), "page a".to_string(), &index_context())
        .unwrap();
    assert_eq!(a, "page a");
    let b = env
        .render_fresh(&"b".to_string(), "page b".to_string(), &index_context())
        .unwrap();
    assert_eq!(b, "page b");
    let a_again = env.render(&"a".to_string(), &index_context()).unwrap();
    assert_eq!(a_again, "page a");
}

#[test]
fn resolve_hands_back_the_registered_source() {
    let mut env = Environment::new(Mode::DevReload);
    assert!(env.add_source("index".to_string(), file_backed("templates", "index.html")));
    match env.resolve(&"index".to_string()).unwrap() {
        TemplateSource::FileBacked { directory, relative_path } => {
            assert_eq!(directory, "templates");
            assert_eq!(relative_path, "index.html");
        }
        TemplateSource::Embedded { .. } => panic!("expected a file-backed source"),
    }
}

#[test]
fn get_or_compile_caches_embedded_sources_lazily() {
    let mut env = Environment::new(Mode::ProdCached);
    assert!(env.add_source("late".to_string(), embedded("lazy {{ name }}")));
    assert!(env.get_or_compile(&"late".to_string()).is_ok());
    let body = env.render(&"late".to_string(), &index_context()).unwrap();
    assert_eq!(body, "lazy World");
    let r = env.get_or_compile(&"missing".to_string());
    assert_eq!(r.unwrap_err(), ServiceError::TemplateNotFound);
}

#[test]
fn guard_policy_follows_the_mode() {
    assert_eq!(Mode::DevReload.guard_policy(), GuardPolicy::Serialize);
    assert_eq!(Mode::ProdCached.guard_policy(), GuardPolicy::LockFree);
}

#[test]
fn scalar_context_binds_one_name() {
    match index_context() {
        RenderContext::Scalar { key, value } => {
            assert_eq!(key, "name");
            assert_eq!(value, "World");
        }
        RenderContext::UserList { .. } => panic!("expected a scalar context"),
    }
}
