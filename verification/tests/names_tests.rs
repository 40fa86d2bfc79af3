use resource_codegen::{
    BucketName, DatabaseName, DocumentName, InstanceName, ObjectName, ProjectName, TopicName,
    UserName,
};

#[test]
fn a_name_holds_what_it_is_given() {
    assert_eq!(ProjectName::new("p".to_string()).to_string(), "p");
    assert_eq!(TopicName::new("t".to_string()).to_string(), "t");
    assert_eq!(BucketName::new("b".to_string()).to_string(), "b");
    assert_eq!(UserName::new("u".to_string()).to_string(), "u");
    assert_eq!(DocumentName::new("d".to_string()).to_string(), "d");
    assert_eq!(DatabaseName::new("db".to_string()).to_string(), "db");
    assert_eq!(InstanceName::new("i".to_string()).to_string(), "i");
    assert_eq!(ObjectName::new("".to_string()).to_string(), "");
}

#[test]
fn try_from_refuses_the_empty_string() {
    assert_eq!(ProjectName::try_from(String::new()), Err("empty".to_string()));
    assert_eq!(TopicName::try_from(String::new()), Err("empty".to_string()));
    assert_eq!(BucketName::try_from(String::new()), Err("empty".to_string()));
    assert_eq!(UserName::try_from(String::new()), Err("empty".to_string()));
    assert_eq!(DocumentName::try_from(String::new()), Err("empty".to_string()));
    assert_eq!(DatabaseName::try_from(String::new()), Err("empty".to_string()));
    assert_eq!(InstanceName::try_from(String::new()), Err("empty".to_string()));
    assert_eq!(ObjectName::try_from(String::new()), Err("empty".to_string()));
}

#[test]
fn try_from_takes_any_other_string() {
    assert_eq!(
        ProjectName::try_from("my-project".to_string()),
        Ok(ProjectName::new("my-project".to_string()))
    );
    assert_eq!(UserName::try_from("-".to_string()), Ok(UserName::new("-".to_string())));
    assert_eq!(
        ObjectName::try_from("a/b".to_string()).map(|n| n.to_string()),
        Ok("a/b".to_string())
    );
}
