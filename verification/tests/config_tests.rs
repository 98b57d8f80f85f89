use winuxsh::array::ArrayValue;
use winuxsh::config::{config_directive, expand_config_line, ConfigDirective};

fn env(pairs: &[(&str, &str)]) -> Vec<(String, ArrayValue)> {
    pairs.iter().map(|(k, v)| (k.to_string(), ArrayValue::String(v.to_string()))).collect()
}

#[test]
fn config_lines_become_directives() {
    let e = env(&[]);
    assert_eq!(
        config_directive("export FOO=\"bar\"", "/home/u", &e),
        ConfigDirective::SetVar("FOO".to_string(), "bar".to_string())
    );
    assert_eq!(
        config_directive("alias ll='ls -l'", "/home/u", &e),
        ConfigDirective::Alias("ll".to_string(), "ls -l".to_string())
    );
    assert_eq!(
        config_directive("source ~/.aliases", "/home/u", &e),
        ConfigDirective::Source("\\home\\u\\.aliases".to_string())
    );
    assert_eq!(
        config_directive("source \"plain.sh\"", "/home/u", &e),
        ConfigDirective::Source("plain.sh".to_string())
    );
    assert_eq!(config_directive("setopt autocd", "/home/u", &e), ConfigDirective::Skip);
    assert_eq!(config_directive("  # comment", "/home/u", &e), ConfigDirective::Skip);
    assert_eq!(config_directive("A-B=1", "/home/u", &e), ConfigDirective::Skip);
    assert_eq!(
        config_directive("X=$HOME/bin", "/home/u", &e),
        ConfigDirective::SetVar("X".to_string(), "/home/u/bin".to_string())
    );
}

#[test]
fn config_expansion_prefers_longer_names() {
    let e = env(&[("A", "1"), ("AB", "2")]);
    assert_eq!(expand_config_line("${AB} $A $AB", "/h", &e), "2 1 2");
    assert_eq!(expand_config_line("$HOME:$HOME", "/h", &e), "/h:/h");
}
