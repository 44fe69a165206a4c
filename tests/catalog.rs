use room_relay::compiler::{CompilerService, LanguageConfig, SecurityConfig};
use room_relay::models::User;

#[test]
fn profile_keeps_public_fields() {
    let u = User {
        id: "u1".to_string(),
        username: "alice".to_string(),
        email: "a@example.com".to_string(),
        password_hash: "hash".to_string(),
        created_at: 10,
        updated_at: 20,
        last_seen_at: Some(15),
        is_online: true,
        interests: Some("rust".to_string()),
        language: None,
    };
    let p = u.to_profile();
    assert_eq!(p.id, "u1");
    assert_eq!(p.username, "alice");
    assert_eq!(p.email, "a@example.com");
    assert_eq!(p.created_at, 10);
    assert_eq!(p.last_seen_at, Some(15));
    assert!(p.is_online);
    assert_eq!(p.interests, Some("rust".to_string()));
    assert_eq!(p.language, None);
}

#[test]
fn language_table() {
    let langs = LanguageConfig::get_supported_languages();
    assert_eq!(langs.len(), 5);
    let cpp = langs.get("cpp").unwrap();
    assert_eq!(cpp.file_extension, ".cpp");
    assert_eq!(cpp.compile_command, Some(vec!["g++".to_string(), "-o".to_string()]));
    assert!(cpp.run_command.is_empty());
    let py = langs.get("python").unwrap();
    assert_eq!(py.compile_command, None);
    assert_eq!(py.run_command, vec!["python3".to_string()]);
    let java = langs.get("java").unwrap();
    assert_eq!(java.compile_command, Some(vec!["javac".to_string()]));
    assert_eq!(java.run_command, vec!["java".to_string()]);
    assert_eq!(langs.get("javascript").unwrap().file_extension, ".js");
    assert_eq!(langs.get("c").unwrap().file_extension, ".c");
    assert!(langs.get("rust").is_none());
}

#[test]
fn language_listing() {
    let langs = LanguageConfig::get_supported_languages();
    let js = LanguageConfig::to_supported_language("javascript", langs.get("javascript").unwrap());
    assert_eq!(js.name, "JavaScript");
    assert_eq!(js.key, "javascript");
    assert!(!js.supports_compilation);
    assert!(js.supports_input);
    let cpp = LanguageConfig::to_supported_language("cpp", langs.get("cpp").unwrap());
    assert_eq!(cpp.name, "C++");
    assert!(cpp.supports_compilation);
    let other = LanguageConfig::to_supported_language("brainfuck", langs.get("c").unwrap());
    assert_eq!(other.name, "brainfuck");
    assert_eq!(other.file_extension, ".c");
}

#[test]
fn service_lists_every_language() {
    let svc = CompilerService::with_temp_dir(std::path::PathBuf::from("/tmp/runner"));
    let list = svc.get_supported_languages();
    let keys: Vec<&str> = list.iter().map(|l| l.key.as_str()).collect();
    assert_eq!(keys, vec!["cpp", "c", "python", "java", "javascript"]);
    let names: Vec<&str> = list.iter().map(|l| l.name.as_str()).collect();
    assert_eq!(names, vec!["C++", "C", "Python", "Java", "JavaScript"]);
}

#[test]
fn security_defaults() {
    let cfg = SecurityConfig::default();
    assert_eq!(cfg.get_execution_timeout(), 10);
    assert_eq!(cfg.max_output_size, 1024 * 1024);
    assert_eq!(cfg.max_code_size, 10 * 1024);
    assert_eq!(cfg.forbidden_patterns.len(), 13);
    assert!(cfg.forbidden_patterns.contains("import os"));
    assert!(cfg.forbidden_patterns.contains("System.exit"));
    let env = SecurityConfig::sanitize_environment();
    assert_eq!(
        env,
        vec![
            ("PATH".to_string(), "/usr/local/bin:/usr/bin:/bin".to_string()),
            ("HOME".to_string(), "/tmp".to_string()),
            ("USER".to_string(), "compiler".to_string()),
        ]
    );
}
