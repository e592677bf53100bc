use rs_codeinsight::models::{detect_data_layer, within_size_limit, DataLayer, EntryKind, WalkEntry};

fn dir(rel: &str, name: &str, count: u32) -> WalkEntry {
    WalkEntry {
        rel_path: rel.to_string(),
        name: name.to_string(),
        parent_name: String::new(),
        kind: EntryKind::Dir { file_count: count },
    }
}

fn file(rel: &str, parent: &str, content: Option<&str>) -> WalkEntry {
    let name = rel.rsplit('/').next().unwrap().to_string();
    WalkEntry {
        rel_path: rel.to_string(),
        name,
        parent_name: parent.to_string(),
        kind: EntryKind::File { size: Some(100), content: content.map(|c| c.to_string()) },
    }
}

fn names(d: &DataLayer) -> Vec<&str> {
    d.model_names.iter().map(|s| s.as_str()).collect()
}

#[test]
fn empty_walk_finds_nothing() {
    let d = detect_data_layer(&vec![], false);
    assert!(d.model_names.is_empty() && d.schema_files.is_empty() && d.migration_dirs.is_empty());
    assert!(d.orm.is_none());
}

#[test]
fn prisma_schema_gives_models_and_orm() {
    let schema = "datasource db {}\nmodel User {\n  id Int\n}\n  model   Post{\nmodel Post {\nmodel {\n";
    let d = detect_data_layer(&vec![file("prisma/schema.prisma", "prisma", Some(schema))], false);
    assert_eq!(names(&d), vec!["User", "Post"]);
    assert_eq!(d.schema_files, vec!["prisma/schema.prisma".to_string()]);
    assert_eq!(d.orm.as_deref(), Some("Prisma"));
}

#[test]
fn unreadable_prisma_schema_is_still_listed() {
    let d = detect_data_layer(&vec![file("schema.prisma", "", None)], false);
    assert_eq!(d.schema_files, vec!["schema.prisma".to_string()]);
    assert!(d.model_names.is_empty());
    assert!(d.orm.is_none());
}

#[test]
fn sql_schema_files_are_listed() {
    let es = vec![
        file("db/schema.sql", "db", None),
        file("db/001.up.sql", "db", None),
        file("db/create_users.sql", "db", None),
        file("db/seed.sql", "db", None),
    ];
    let d = detect_data_layer(&es, false);
    assert_eq!(
        d.schema_files,
        vec!["db/schema.sql".to_string(), "db/001.up.sql".to_string(), "db/create_users.sql".to_string()]
    );
}

#[test]
fn go_model_packages_give_structs_and_gorm() {
    let src = "package models\n\ntype User struct {\n\tgorm.Model\n}\ntype Role string\ntype Order struct{}\n";
    let es = vec![file("internal/models/user.go", "models", Some(src)), file("cmd/main.go", "cmd", Some("type X struct {}"))];
    let d = detect_data_layer(&es, false);
    assert_eq!(names(&d), vec!["User", "Order"]);
    assert_eq!(d.orm.as_deref(), Some("GORM"));
}

#[test]
fn go_json_tags_suggest_plain_structs() {
    let src = "type Item struct {\n\tName string `json:\"name\"`\n}\n";
    let d = detect_data_layer(&vec![file("domain/item.go", "domain", Some(src))], false);
    assert_eq!(names(&d), vec!["Item"]);
    assert_eq!(d.orm.as_deref(), Some("Go structs"));
}

#[test]
fn typescript_models_skip_utility_types() {
    let src = "export interface User {\n  id: string\n}\ninterface ButtonProps {}\nexport type Id = string\ntype Pair<A> = [A, A]\nexport class Account {}\nclass Cache<T> {}\nconst x = 1\n";
    let d = detect_data_layer(&vec![file("src/models/user.ts", "models", Some(src))], false);
    assert_eq!(names(&d), vec!["User", "Id", "Pair", "Account", "Cache"]);
    assert!(d.orm.is_none());
}

#[test]
fn models_are_listed_once() {
    let es = vec![
        file("a/models/x.ts", "models", Some("interface Shared {}\n")),
        file("b/types/y.ts", "types", Some("export interface Shared {}\ninterface Other {}\n")),
    ];
    let d = detect_data_layer(&es, false);
    assert_eq!(names(&d), vec!["Shared", "Other"]);
}

#[test]
fn orm_detection_order_and_first_one_wins() {
    let es = vec![
        file("src/db.ts", "src", Some("const User = mongoose.model('User', s)")),
        file("src/entity.ts", "src", Some("@Entity()\nclass A {}")),
    ];
    let d = detect_data_layer(&es, true);
    assert_eq!(d.orm.as_deref(), Some("Mongoose"));

    let d = detect_data_layer(&vec![file("src/db.js", "src", Some("import { Sequelize, DataTypes } from 'sequelize'"))], false);
    assert_eq!(d.orm.as_deref(), Some("Sequelize"));
    let d = detect_data_layer(&vec![file("src/schema.ts", "src", Some("export const users = pgTable('users', {})"))], false);
    assert_eq!(d.orm.as_deref(), Some("Drizzle"));
    let d = detect_data_layer(&vec![file("src/e.tsx", "src", Some("@Entity() mongoose.model"))], false);
    assert_eq!(d.orm.as_deref(), Some("TypeORM"));
}

#[test]
fn drizzle_folder_is_the_last_resort() {
    let d = detect_data_layer(&vec![], true);
    assert_eq!(d.orm.as_deref(), Some("Drizzle"));
    let d = detect_data_layer(&vec![file("schema.prisma", "", Some(""))], true);
    assert_eq!(d.orm.as_deref(), Some("Prisma"));
}

#[test]
fn migration_folders_are_listed_once_with_their_file_count() {
    let es = vec![
        dir("db/migrations", "migrations", 4),
        dir("prisma/migrations", "migrations", 0),
        dir("api/migrate", "migrate", 2),
        dir("old/db/migrations", "other", 3),
    ];
    let d = detect_data_layer(&es, false);
    assert_eq!(
        d.migration_dirs,
        vec![
            "db/migrations (4 files)".to_string(),
            "api/migrate (2 files)".to_string(),
            "old/db/migrations (3 files)".to_string(),
        ]
    );
}

#[test]
fn backslashes_in_paths_become_slashes() {
    let e = WalkEntry {
        rel_path: "db\\schema.sql".to_string(),
        name: "schema.sql".to_string(),
        parent_name: "db".to_string(),
        kind: EntryKind::File { size: None, content: None },
    };
    let d = detect_data_layer(&vec![e], false);
    assert_eq!(d.schema_files, vec!["db/schema.sql".to_string()]);
}

#[test]
fn large_files_are_skipped() {
    assert!(within_size_limit(Some(204800)));
    assert!(!within_size_limit(Some(204801)));
    assert!(within_size_limit(None));
    let big = WalkEntry {
        rel_path: "schema.prisma".to_string(),
        name: "schema.prisma".to_string(),
        parent_name: String::new(),
        kind: EntryKind::File { size: Some(300 * 1024), content: Some("model A {".to_string()) },
    };
    let d = detect_data_layer(&vec![big], false);
    assert!(d.schema_files.is_empty() && d.model_names.is_empty());
}

#[test]
fn extension_follows_the_last_dot() {
    let es = vec![
        file("models/.ts", "models", Some("interface Hidden {}")),
        file("models/a.d.ts", "models", Some("interface Declared {}")),
        file("models/noext", "models", Some("interface None {}")),
    ];
    let d = detect_data_layer(&es, false);
    assert_eq!(names(&d), vec!["Declared"]);
}
