use winuxsh::array::ArrayValue;
use winuxsh::executor::Executor;
use winuxsh::job::{Job, JobManager, JobStatus};
use winuxsh::plugin::{Plugin, WelcomePlugin};

#[test]
fn test_string_value() {
    let value = ArrayValue::String("hello".to_string());
    assert_eq!(value.as_string(), Some("hello"));
}

#[test]
fn test_array_value() {
    let value = ArrayValue::Array(vec!["a".to_string(), "b".to_string(), "c".to_string()]);
    assert_eq!(value.as_string(), None);
}

#[test]
fn test_display() {
    let string_val = ArrayValue::String("hello".to_string());
    assert_eq!(string_val.to_string(), "hello");

    let array_val = ArrayValue::Array(vec!["a".to_string(), "b".to_string()]);
    assert_eq!(array_val.to_string(), "(a b)");
}

#[test]
fn test_executor_creation() {
    let env_vars = vec![("PATH".to_string(), ArrayValue::String("/usr/bin:/bin".to_string()))];
    let executor = Executor::new(&env_vars, ".");
    assert_eq!(executor.env_vars.len(), 1);
}

#[test]
fn test_job_creation() {
    let job = Job::new(1, "sleep 10".to_string(), 1234);
    assert_eq!(job.id, 1);
    assert_eq!(job.command, "sleep 10");
    assert_eq!(job.pid, 1234);
    assert_eq!(job.status(), JobStatus::Running);
}

#[test]
fn test_job_manager() {
    let mut manager = JobManager::new();
    assert_eq!(manager.job_count(), 0);
    assert!(!manager.has_jobs());

    let job_id = manager.add_job("sleep 10".to_string(), 1234);
    assert_eq!(job_id, 1);
    assert_eq!(manager.job_count(), 1);
    assert!(manager.has_jobs());

    let job = manager.get_job(job_id);
    assert!(job.is_some());
    assert_eq!(job.unwrap().command, "sleep 10");

    let index = manager.find_job_index(job_id);
    assert!(index.is_some());
    assert_eq!(index.unwrap(), 0);
}

#[test]
fn job_numbers_stay_fresh_after_removal() {
    let mut manager = JobManager::new();
    let a = manager.add_job("a".to_string(), 1);
    let b = manager.add_job("b".to_string(), 2);
    let removed = manager.remove_job(0).unwrap();
    assert_eq!(removed.id, a);
    let c = manager.add_job("c".to_string(), 3);
    assert!(c != a && c != b);
    assert!(manager.remove_job(5).is_err());
}

#[test]
fn test_welcome_plugin() {
    let plugin = WelcomePlugin;
    assert_eq!(plugin.name(), "welcome");
    assert_eq!(plugin.description(), "Welcome message plugin");
}

#[test]
fn test_welcome_plugin_execute() {
    let mut plugin = WelcomePlugin;
    assert!(plugin.init().is_ok());
}
