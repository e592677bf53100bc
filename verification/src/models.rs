//! The data layer of a project: model names found in Prisma schemas, Go
//! model packages and TypeScript/JavaScript model folders, schema files,
//! migration folders and the ORM in use. A walk of the project (done by the
//! caller) reports each entry; this module decides what each one adds.
use vstd::prelude::*;
use crate::text::{
    after_prefix, chars_of, concat, contains, contains_sub, decimal, decimal_chars, ends_with,
    eq_chars, has_prefix, has_suffix, is, is_ws, is_ws_char, last_piece, last_piece_chars, lines,
    lines_str, replace_char, replace_char_chars, slice_of, starts_with, starts_with_chars,
    string_from, string_of, strs, trim, trim_chars, trim_start, trim_start_chars, views,
};

verus! {

/// What a project keeps about its data.
pub struct DataLayer {
    pub model_names: Vec<String>,
    pub schema_files: Vec<String>,
    pub migration_dirs: Vec<String>,
    pub orm: Option<String>,
}

/// What a walk of the project reports of one entry.
pub enum EntryKind {
    /// A directory, with the number of files directly inside it.
    Dir { file_count: u32 },
    /// A file: its size when it could be read, and its text when the file
    /// could be read as UTF-8.
    File { size: Option<u64>, content: Option<String> },
    /// Anything else, such as a dangling link.
    Other,
}

/// One entry of the walk: its path relative to the project root, its own
/// name and the name of the directory that holds it.
pub struct WalkEntry {
    pub rel_path: String,
    pub name: String,
    pub parent_name: String,
    pub kind: EntryKind,
}

/// The kinds of declarations model names are read from.
pub enum ModelSyntax {
    Prisma,
    Go,
    TypeScript,
}

/// The characters that end a name.
pub enum Delims {
    /// White space.
    Whitespace,
    /// White space, `{` or `<` (interfaces and classes).
    Declaration,
    /// White space, `=` or `<` (type aliases).
    TypeAlias,
}

// ---------------------------------------------------------------------------
// What each entry adds
// ---------------------------------------------------------------------------

/// What has been found so far.
pub struct LayerModel {
    pub models: Seq<Seq<char>>,
    pub schemas: Seq<Seq<char>>,
    pub migrations: Seq<Seq<char>>,
    pub orm: Option<Seq<char>>,
}

pub open spec fn opt_str(o: Option<String>) -> Option<Seq<char>> {
    match o {
        Some(s) => Some(s@),
        None => None,
    }
}

pub open spec fn opt_chars(o: Option<Vec<char>>) -> Option<Seq<char>> {
    match o {
        Some(v) => Some(v@),
        None => None,
    }
}

pub open spec fn layer_view(d: DataLayer) -> LayerModel {
    LayerModel {
        models: strs(d.model_names@),
        schemas: strs(d.schema_files@),
        migrations: strs(d.migration_dirs@),
        orm: opt_str(d.orm),
    }
}

pub open spec fn empty_layer() -> LayerModel {
    LayerModel {
        models: Seq::empty(),
        schemas: Seq::empty(),
        migrations: Seq::empty(),
        orm: None,
    }
}

/// Files above 200 KiB are not read.
pub open spec fn too_large(size: Option<u64>) -> bool {
    size matches Some(s) && s > 204800
}

pub open spec fn is_delim(d: Delims, c: char) -> bool {
    match d {
        Delims::Whitespace => is_ws(c),
        Delims::Declaration => is_ws(c) || c == '{' || c == '<',
        Delims::TypeAlias => is_ws(c) || c == '=' || c == '<',
    }
}

/// How many characters precede the first delimiter of `s`.
pub open spec fn lead_len(s: Seq<char>, d: Delims) -> nat
    decreases s.len(),
{
    if s.len() == 0 || is_delim(d, s[0]) {
        0
    } else {
        1 + lead_len(s.drop_first(), d)
    }
}

/// What precedes the first delimiter of `s`.
pub open spec fn lead(s: Seq<char>, d: Delims) -> Seq<char> {
    s.take(lead_len(s, d) as int)
}

/// The first white-space separated word of `s` (`split_whitespace().next()`).
pub open spec fn first_word(s: Seq<char>) -> Option<Seq<char>> {
    let u = trim_start(s);
    if u.len() == 0 {
        None
    } else {
        Some(lead(u, Delims::Whitespace))
    }
}

pub open spec fn nonempty(s: Seq<char>) -> Option<Seq<char>> {
    if s.len() > 0 {
        Some(s)
    } else {
        None
    }
}

/// `s` without any trailing `c` (`trim_end_matches`).
pub open spec fn strip_trailing(s: Seq<char>, c: char) -> Seq<char>
    decreases s.len(),
{
    if s.len() > 0 && s.last() == c {
        strip_trailing(s.drop_last(), c)
    } else {
        s
    }
}

/// The model a Prisma schema line declares: `model Name {`.
pub open spec fn prisma_model(line: Seq<char>) -> Option<Seq<char>> {
    let t = trim(line);
    if has_prefix(t, "model "@) {
        match first_word(t.skip("model "@.len() as int)) {
            Some(w) => nonempty(trim(strip_trailing(w, '{'))),
            None => None,
        }
    } else {
        None
    }
}

/// The struct a Go line declares: `type Name struct`.
pub open spec fn go_model(line: Seq<char>) -> Option<Seq<char>> {
    let t = trim(line);
    if has_prefix(t, "type "@) && contains_sub(t, " struct"@) {
        match first_word(t.skip("type "@.len() as int)) {
            Some(w) => nonempty(w),
            None => None,
        }
    } else {
        None
    }
}

/// The interface, type alias or class a TypeScript line declares.
pub open spec fn ts_model_name(line: Seq<char>) -> Option<Seq<char>> {
    if has_prefix(line, "interface "@) || has_prefix(line, "export interface "@) {
        let rest = if has_prefix(line, "export interface "@) {
            line.skip("export interface "@.len() as int)
        } else {
            line.skip("interface "@.len() as int)
        };
        nonempty(lead(rest, Delims::Declaration))
    } else if has_prefix(line, "type "@) || has_prefix(line, "export type "@) {
        let rest = if has_prefix(line, "export type "@) {
            line.skip("export type "@.len() as int)
        } else {
            line.skip("type "@.len() as int)
        };
        nonempty(lead(rest, Delims::TypeAlias))
    } else if has_prefix(line, "export class "@) || has_prefix(line, "class "@) {
        let rest = if has_prefix(line, "export class "@) {
            line.skip("export class "@.len() as int)
        } else {
            line.skip("class "@.len() as int)
        };
        nonempty(lead(rest, Delims::Declaration))
    } else {
        None
    }
}

/// Names of props, parameters, options, configuration and request or
/// response shapes are not models.
pub open spec fn is_utility(name: Seq<char>) -> bool {
    ||| contains_sub(name, "Props"@)
    ||| contains_sub(name, "Params"@)
    ||| contains_sub(name, "Options"@)
    ||| contains_sub(name, "Config"@)
    ||| contains_sub(name, "Response"@)
    ||| contains_sub(name, "Request"@)
}

pub open spec fn ts_model(line: Seq<char>) -> Option<Seq<char>> {
    match ts_model_name(trim(line)) {
        Some(n) => if is_utility(n) {
            None
        } else {
            Some(n)
        },
        None => None,
    }
}

pub open spec fn model_in_line(syn: ModelSyntax, line: Seq<char>) -> Option<Seq<char>> {
    match syn {
        ModelSyntax::Prisma => prisma_model(line),
        ModelSyntax::Go => go_model(line),
        ModelSyntax::TypeScript => ts_model(line),
    }
}

/// `models` with `n` added unless it is already there.
pub open spec fn add_name(models: Seq<Seq<char>>, n: Seq<char>) -> Seq<Seq<char>> {
    if models.contains(n) {
        models
    } else {
        models.push(n)
    }
}

/// `models` with the model of each line added in turn.
pub open spec fn add_models(models: Seq<Seq<char>>, ls: Seq<Seq<char>>, syn: ModelSyntax) -> Seq<
    Seq<char>,
>
    decreases ls.len(),
{
    if ls.len() == 0 {
        models
    } else {
        let m = add_models(models, ls.drop_last(), syn);
        match model_in_line(syn, ls.last()) {
            Some(n) => add_name(m, n),
            None => m,
        }
    }
}

pub open spec fn is_sql_schema(name: Seq<char>) -> bool {
    ||| name == "schema.sql"@
    ||| has_suffix(name, ".up.sql"@)
    ||| has_prefix(name, "create_"@) && has_suffix(name, ".sql"@)
}

pub open spec fn is_go_model_dir(p: Seq<char>) -> bool {
    p == "models"@ || p == "model"@ || p == "entities"@ || p == "entity"@ || p == "domain"@
}

pub open spec fn is_script_model_dir(p: Seq<char>) -> bool {
    p == "models"@ || p == "model"@ || p == "types"@ || p == "entities"@ || p == "schemas"@
}

pub open spec fn is_script_ext(e: Seq<char>) -> bool {
    e == "ts"@ || e == "js"@ || e == "tsx"@ || e == "jsx"@
}

/// The extension of a file name (`Path::extension`): what follows its last
/// dot, unless that dot starts the name; empty when there is none.
pub open spec fn extension(name: Seq<char>) -> Seq<char> {
    let e = last_piece(name, '.');
    if e.len() + 1 < name.len() {
        e
    } else {
        Seq::empty()
    }
}

/// The ORM a Go model file suggests.
pub open spec fn go_orm(c: Seq<char>) -> Option<Seq<char>> {
    if contains_sub(c, "gorm"@) {
        Some("GORM"@)
    } else if contains_sub(c, "json:"@) {
        Some("Go structs"@)
    } else {
        None
    }
}

/// The ORM a TypeScript or JavaScript file uses.
pub open spec fn script_orm(c: Seq<char>) -> Option<Seq<char>> {
    if contains_sub(c, "@Entity"@) {
        Some("TypeORM"@)
    } else if contains_sub(c, "mongoose.model"@) || contains_sub(c, "mongoose.Schema"@) {
        Some("Mongoose"@)
    } else if contains_sub(c, "sequelize.define"@) || (contains_sub(c, "Sequelize"@)
        && contains_sub(c, "DataTypes"@)) {
        Some("Sequelize"@)
    } else if contains_sub(c, "pgTable"@) || contains_sub(c, "sqliteTable"@) || contains_sub(
        c,
        "mysqlTable"@,
    ) {
        Some("Drizzle"@)
    } else {
        None
    }
}

/// `dir (N files)`.
pub open spec fn migration_label(rel: Seq<char>, count: u32) -> Seq<char> {
    rel + " ("@ + decimal(count as nat) + " files)"@
}

pub open spec fn with_migration(m: LayerModel, label: Seq<char>) -> LayerModel {
    LayerModel {
        models: m.models,
        schemas: m.schemas,
        migrations: m.migrations.push(label),
        orm: m.orm,
    }
}

/// Some string of `items` begins with `p`.
pub open spec fn some_has_prefix(items: Seq<Seq<char>>, p: Seq<char>) -> bool {
    exists|i: int| 0 <= i < items.len() && has_prefix(#[trigger] items[i], p)
}

/// A directory: a non-empty `migrations` or `migrate` folder, or a
/// non-empty `db/migrations` or `prisma/migrations` folder not yet listed.
pub open spec fn visit_dir(m: LayerModel, rel: Seq<char>, name: Seq<char>, count: u32) -> LayerModel {
    let m1 = if (name == "migrations"@ || name == "migrate"@) && count > 0 {
        with_migration(m, migration_label(rel, count))
    } else {
        m
    };
    if (has_suffix(rel, "db/migrations"@) || has_suffix(rel, "prisma/migrations"@)) && count > 0
        && !some_has_prefix(m1.migrations, rel) {
        with_migration(m1, migration_label(rel, count))
    } else {
        m1
    }
}

/// A file: Prisma schemas give models and the ORM, SQL schema files are
/// listed, Go files in model packages give structs and perhaps the ORM,
/// and TypeScript/JavaScript files in model folders give declarations, any
/// of them telling the ORM.
pub open spec fn visit_file(
    m: LayerModel,
    rel: Seq<char>,
    name: Seq<char>,
    parent: Seq<char>,
    size: Option<u64>,
    content: Option<Seq<char>>,
) -> LayerModel {
    let ext = extension(name);
    if too_large(size) {
        m
    } else if name == "schema.prisma"@ {
        match content {
            None => LayerModel {
                models: m.models,
                schemas: m.schemas.push(rel),
                migrations: m.migrations,
                orm: m.orm,
            },
            Some(c) => LayerModel {
                models: add_models(m.models, lines(c), ModelSyntax::Prisma),
                schemas: m.schemas.push(rel),
                migrations: m.migrations,
                orm: if m.orm is None {
                    Some("Prisma"@)
                } else {
                    m.orm
                },
            },
        }
    } else if is_sql_schema(name) {
        LayerModel {
            models: m.models,
            schemas: m.schemas.push(rel),
            migrations: m.migrations,
            orm: m.orm,
        }
    } else if ext == "go"@ {
        match content {
            Some(c) => if is_go_model_dir(parent) {
                LayerModel {
                    models: add_models(m.models, lines(c), ModelSyntax::Go),
                    schemas: m.schemas,
                    migrations: m.migrations,
                    orm: if m.orm is None {
                        go_orm(c)
                    } else {
                        m.orm
                    },
                }
            } else {
                m
            },
            None => m,
        }
    } else if is_script_ext(ext) {
        match content {
            Some(c) => {
                let models = if is_script_model_dir(parent) {
                    add_models(m.models, lines(c), ModelSyntax::TypeScript)
                } else {
                    m.models
                };
                LayerModel {
                    models,
                    schemas: m.schemas,
                    migrations: m.migrations,
                    orm: if m.orm is None {
                        script_orm(c)
                    } else {
                        m.orm
                    },
                }
            },
            None => m,
        }
    } else {
        m
    }
}

/// What one entry of the walk adds.
pub open spec fn visit(m: LayerModel, e: WalkEntry) -> LayerModel {
    let rel = replace_char(e.rel_path@, '\\', '/');
    match e.kind {
        EntryKind::Dir { file_count } => visit_dir(m, rel, e.name@, file_count),
        EntryKind::File { size, content } => visit_file(
            m,
            rel,
            e.name@,
            e.parent_name@,
            size,
            opt_str(content),
        ),
        EntryKind::Other => m,
    }
}

pub open spec fn visit_all(es: Seq<WalkEntry>) -> LayerModel
    decreases es.len(),
{
    if es.len() == 0 {
        empty_layer()
    } else {
        visit(visit_all(es.drop_last()), es.last())
    }
}

/// The data layer of a walk; a `drizzle` folder at the root tells the ORM
/// when nothing else did.
pub open spec fn data_layer_of(es: Seq<WalkEntry>, has_drizzle_dir: bool) -> LayerModel {
    let m = visit_all(es);
    if m.orm is None && has_drizzle_dir {
        LayerModel {
            models: m.models,
            schemas: m.schemas,
            migrations: m.migrations,
            orm: Some("Drizzle"@),
        }
    } else {
        m
    }
}

// ---------------------------------------------------------------------------
// Laws
// ---------------------------------------------------------------------------

proof fn lemma_add_models_distinct(models: Seq<Seq<char>>, ls: Seq<Seq<char>>, syn: ModelSyntax)
    requires
        models.no_duplicates(),
    ensures
        add_models(models, ls, syn).no_duplicates(),
    decreases ls.len(),
{
    if ls.len() > 0 {
        lemma_add_models_distinct(models, ls.drop_last(), syn);
        let m = add_models(models, ls.drop_last(), syn);
        if let Some(n) = model_in_line(syn, ls.last()) {
            if !m.contains(n) {
                assert forall|i: int, j: int|
                    0 <= i < m.push(n).len() && 0 <= j < m.push(n).len() && i != j implies m.push(
                    n,
                )[i] != m.push(n)[j] by {
                    if i == m.len() {
                        assert(m.push(n)[j] == m[j]);
                    } else if j == m.len() {
                        assert(m.push(n)[i] == m[i]);
                    }
                }
            }
        }
    }
}

proof fn lemma_visit_keeps(m: LayerModel, e: WalkEntry)
    requires
        m.models.no_duplicates(),
    ensures
        visit(m, e).models.no_duplicates(),
        m.orm is Some ==> visit(m, e).orm == m.orm,
{
    match e.kind {
        EntryKind::File { size, content } => {
            if let Some(c) = opt_str(content) {
                lemma_add_models_distinct(m.models, lines(c), ModelSyntax::Prisma);
                lemma_add_models_distinct(m.models, lines(c), ModelSyntax::Go);
                lemma_add_models_distinct(m.models, lines(c), ModelSyntax::TypeScript);
            }
        },
        _ => {},
    }
}

proof fn lemma_visit_all_keeps(es: Seq<WalkEntry>, k: int)
    requires
        0 <= k <= es.len(),
    ensures
        visit_all(es).models.no_duplicates(),
        visit_all(es.take(k)).orm is Some ==> visit_all(es).orm == visit_all(es.take(k)).orm,
    decreases es.len(),
{
    if es.len() == 0 {
        assert(es.take(k) =~= es);
    } else if k == es.len() {
        assert(es.take(k) =~= es);
        lemma_visit_all_keeps(es.drop_last(), 0);
        lemma_visit_keeps(visit_all(es.drop_last()), es.last());
    } else {
        lemma_visit_all_keeps(es.drop_last(), k);
        assert(es.drop_last().take(k) =~= es.take(k));
        lemma_visit_keeps(visit_all(es.drop_last()), es.last());
    }
}

/// A model name is listed once, however many files declare it.
pub proof fn lemma_models_distinct(es: Seq<WalkEntry>, has_drizzle_dir: bool)
    ensures
        data_layer_of(es, has_drizzle_dir).models.no_duplicates(),
{
    lemma_visit_all_keeps(es, 0);
}

/// The first ORM found stays: what any leading part of the walk tells is
/// what the whole walk tells.
pub proof fn lemma_first_orm_stays(es: Seq<WalkEntry>, k: int, has_drizzle_dir: bool)
    requires
        0 <= k <= es.len(),
        visit_all(es.take(k)).orm is Some,
    ensures
        data_layer_of(es, has_drizzle_dir).orm == visit_all(es.take(k)).orm,
{
    lemma_visit_all_keeps(es, k);
}

proof fn lemma_add_models_keeps(models: Seq<Seq<char>>, ls: Seq<Seq<char>>, syn: ModelSyntax, y: Seq<char>)
    requires
        models.contains(y),
    ensures
        add_models(models, ls, syn).contains(y),
    decreases ls.len(),
{
    if ls.len() > 0 {
        lemma_add_models_keeps(models, ls.drop_last(), syn, y);
        let m = add_models(models, ls.drop_last(), syn);
        if let Some(n) = model_in_line(syn, ls.last()) {
            if !m.contains(n) {
                let q = choose|q: int| 0 <= q < m.len() && m[q] == y;
                assert(m.push(n)[q] == y);
            }
        }
    }
}

proof fn lemma_add_models_has(models: Seq<Seq<char>>, ls: Seq<Seq<char>>, syn: ModelSyntax, line: Seq<char>)
    requires
        ls.contains(line),
        model_in_line(syn, line) is Some,
    ensures
        add_models(models, ls, syn).contains(model_in_line(syn, line)->0),
    decreases ls.len(),
{
    let n = model_in_line(syn, line)->0;
    let m = add_models(models, ls.drop_last(), syn);
    if ls.last() == line {
        if !m.contains(n) {
            assert(m.push(n)[m.len() as int] == n);
        }
    } else {
        let q = choose|q: int| 0 <= q < ls.len() && ls[q] == line;
        assert(ls.drop_last()[q] == line);
        lemma_add_models_has(models, ls.drop_last(), syn, line);
        if let Some(n2) = model_in_line(syn, ls.last()) {
            if !m.contains(n2) {
                let r = choose|r: int| 0 <= r < m.len() && m[r] == n;
                assert(m.push(n2)[r] == n);
            }
        }
    }
}

proof fn lemma_visit_keeps_model(m: LayerModel, e: WalkEntry, y: Seq<char>)
    requires
        m.models.contains(y),
    ensures
        visit(m, e).models.contains(y),
{
    match e.kind {
        EntryKind::File { size, content } => {
            if let Some(c) = opt_str(content) {
                lemma_add_models_keeps(m.models, lines(c), ModelSyntax::Prisma, y);
                lemma_add_models_keeps(m.models, lines(c), ModelSyntax::Go, y);
                lemma_add_models_keeps(m.models, lines(c), ModelSyntax::TypeScript, y);
            }
        },
        _ => {},
    }
}

proof fn lemma_visit_all_has(es: Seq<WalkEntry>, k: int, y: Seq<char>)
    requires
        0 <= k < es.len(),
        visit(visit_all(es.take(k)), es[k]).models.contains(y),
    ensures
        visit_all(es).models.contains(y),
    decreases es.len(),
{
    if k == es.len() - 1 {
        assert(es.take(k) =~= es.drop_last());
    } else {
        assert(es.drop_last().take(k) =~= es.take(k));
        assert(es.drop_last()[k] == es[k]);
        lemma_visit_all_has(es.drop_last(), k, y);
        lemma_visit_keeps_model(visit_all(es.drop_last()), es.last(), y);
    }
}

/// The extension of a name whose last `'.'` is at `dot`.
proof fn lemma_extension_at(name: Seq<char>, dot: int)
    requires
        0 < dot < name.len() - 1,
        name[dot] == '.',
        forall|j: int| dot < j < name.len() ==> name[j] != '.',
    ensures
        extension(name) == name.subrange(dot + 1, name.len() as int),
{
    crate::text::lemma_last_piece_from(name, '.', dot + 1);
}

/// A Prisma schema or an SQL schema file has the extension `prisma` or
/// `sql`.
proof fn lemma_schema_extensions(name: Seq<char>)
    ensures
        name == "schema.prisma"@ ==> extension(name) == "prisma"@,
        is_sql_schema(name) ==> extension(name) == "sql"@,
{
    reveal_strlit("schema.prisma");
    reveal_strlit("prisma");
    reveal_strlit("schema.sql");
    reveal_strlit(".up.sql");
    reveal_strlit(".sql");
    reveal_strlit("sql");
    reveal_strlit("create_");
    if name == "schema.prisma"@ {
        lemma_extension_at(name, 6);
        assert(name.subrange(7, 13) =~= "prisma"@);
    }
    if is_sql_schema(name) {
        let l = name.len() as int;
        if name == "schema.sql"@ {
            lemma_extension_at(name, 6);
            assert(name.subrange(l - 3, l) =~= "sql"@);
        } else if has_suffix(name, ".up.sql"@) {
            assert forall|t: int| 0 <= t < 3 implies name[l - 3 + t] == "sql"@[t] by {
                assert(name.subrange(l - 7, l)[4 + t] == name[l - 3 + t]);
            }
            assert(name.subrange(l - 7, l)[3] == name[l - 4]);
            assert forall|j: int| l - 4 < j < l implies name[j] != '.' by {
                assert(name.subrange(l - 7, l)[j - (l - 7)] == name[j]);
            }
            lemma_extension_at(name, l - 4);
        } else {
            assert(has_prefix(name, "create_"@) && has_suffix(name, ".sql"@));
            assert(name.subrange(0, 7)[0] == name[0]);
            assert(name.subrange(l - 4, l)[0] == name[l - 4]);
            assert forall|j: int| l - 4 < j < l implies name[j] != '.' by {
                assert(name.subrange(l - 4, l)[j - (l - 4)] == name[j]);
            }
            assert forall|t: int| 0 <= t < 3 implies name[l - 3 + t] == "sql"@[t] by {
                assert(name.subrange(l - 4, l)[1 + t] == name[l - 3 + t]);
            }
            lemma_extension_at(name, l - 4);
        }
        assert(name.subrange(l - 3, l) =~= "sql"@);
    }
}

/// Model folders: a TypeScript or JavaScript file (extension `ts`, `js`,
/// `tsx` or `jsx`) that was read from a folder named `models`, `model`,
/// `types`, `entities` or `schemas`, and a Go file read from a folder named
/// `models`, `model`, `entities`, `entity` or `domain`, add to the data
/// layer every model that one of their lines declares, as a Prisma schema
/// (`schema.prisma`) does wherever it lies; and a model once
/// found stays whatever entries the walk reports after it.
pub proof fn lemma_model_folders(
    es: Seq<WalkEntry>,
    has_drizzle_dir: bool,
    k: int,
    size: Option<u64>,
    c: String,
    line: Seq<char>,
)
    requires
        0 <= k < es.len(),
        es[k].kind == (EntryKind::File { size, content: Some(c) }),
        !too_large(size),
        lines(c@).contains(line),
    ensures
        ({
            let p = es[k].parent_name@;
            let x = extension(es[k].name@);
            &&& (x == "ts"@ || x == "js"@ || x == "tsx"@ || x == "jsx"@) && (p == "models"@ || p
                == "model"@ || p == "types"@ || p == "entities"@ || p == "schemas"@) && ts_model(line) is Some
                ==> data_layer_of(es, has_drizzle_dir).models.contains(ts_model(line)->0)
            &&& x == "go"@ && (p == "models"@ || p == "model"@ || p == "entities"@ || p == "entity"@
                || p == "domain"@) && go_model(line) is Some ==> data_layer_of(es, has_drizzle_dir).models.contains(
                go_model(line)->0)
            &&& es[k].name@ == "schema.prisma"@ && prisma_model(line) is Some ==> data_layer_of(
                es,
                has_drizzle_dir,
            ).models.contains(prisma_model(line)->0)
        }),
{
    reveal_strlit("ts");
    reveal_strlit("js");
    reveal_strlit("tsx");
    reveal_strlit("jsx");
    reveal_strlit("go");
    reveal_strlit("prisma");
    reveal_strlit("sql");
    let e = es[k];
    let name = e.name@;
    let p = e.parent_name@;
    let x = extension(name);
    let m = visit_all(es.take(k));
    lemma_schema_extensions(name);
    assert(opt_str(Some(c)) == Some(c@));
    assert("sql"@[0] != "ts"@[0] && "sql"@[0] != "js"@[0] && "sql"@[0] != "tsx"@[0] && "sql"@[0] != "jsx"@[0]
        && "sql"@[0] != "go"@[0]);
    assert("prisma"@[0] != "ts"@[0] && "prisma"@[0] != "js"@[0] && "prisma"@[0] != "tsx"@[0]
        && "prisma"@[0] != "jsx"@[0] && "prisma"@[0] != "go"@[0]);
    if (x == "ts"@ || x == "js"@ || x == "tsx"@ || x == "jsx"@) && (p == "models"@ || p == "model"@
        || p == "types"@ || p == "entities"@ || p == "schemas"@) && ts_model(line) is Some {
        assert(name != "schema.prisma"@);
        assert(!is_sql_schema(name));
        lemma_add_models_has(m.models, lines(c@), ModelSyntax::TypeScript, line);
        lemma_visit_all_has(es, k, ts_model(line)->0);
    }
    if x == "go"@ && (p == "models"@ || p == "model"@ || p == "entities"@ || p == "entity"@ || p
        == "domain"@) && go_model(line) is Some {
        assert(name != "schema.prisma"@);
        assert(!is_sql_schema(name));
        lemma_add_models_has(m.models, lines(c@), ModelSyntax::Go, line);
        lemma_visit_all_has(es, k, go_model(line)->0);
    }
    if name == "schema.prisma"@ && prisma_model(line) is Some {
        lemma_add_models_has(m.models, lines(c@), ModelSyntax::Prisma, line);
        lemma_visit_all_has(es, k, prisma_model(line)->0);
    }
}

// ---------------------------------------------------------------------------
// Reading names
// ---------------------------------------------------------------------------

fn is_delim_exec(d: &Delims, c: char) -> (r: bool)
    ensures
        r == is_delim(*d, c),
{
    match d {
        Delims::Whitespace => is_ws_char(c),
        Delims::Declaration => is_ws_char(c) || c == '{' || c == '<',
        Delims::TypeAlias => is_ws_char(c) || c == '=' || c == '<',
    }
}

proof fn lemma_lead_len_bound(s: Seq<char>, d: Delims)
    ensures
        lead_len(s, d) <= s.len(),
    decreases s.len(),
{
    if s.len() > 0 && !is_delim(d, s[0]) {
        lemma_lead_len_bound(s.drop_first(), d);
    }
}

/// What precedes the first delimiter of `s`.
fn lead_exec(s: &[char], d: &Delims) -> (r: Vec<char>)
    ensures
        r@ == lead(s@, *d),
{
    let n = s.len();
    let mut i: usize = 0;
    assert(s@.skip(0) =~= s@);
    while i < n && !is_delim_exec(d, s[i])
        invariant
            i <= n == s@.len(),
            lead_len(s@, *d) == i + lead_len(s@.skip(i as int), *d),
        decreases n - i,
    {
        let ghost rest = s@.skip(i as int);
        assert(rest[0] == s@[i as int]);
        assert(rest.drop_first() =~= s@.skip(i + 1));
        i += 1;
    }
    if i < n {
        assert(s@.skip(i as int)[0] == s@[i as int]);
    } else {
        assert(s@.skip(i as int).len() == 0);
    }
    slice_of(s, 0, i)
}

/// The first white-space separated word of `s`.
fn first_word_exec(s: &[char]) -> (r: Option<Vec<char>>)
    ensures
        opt_chars(r) == first_word(s@),
{
    let u = trim_start_chars(s);
    if u.len() == 0 {
        None
    } else {
        Some(lead_exec(u.as_slice(), &Delims::Whitespace))
    }
}

/// `s` without any trailing `c`.
fn strip_trailing_exec(s: &[char], c: char) -> (r: Vec<char>)
    ensures
        r@ == strip_trailing(s@, c),
{
    let mut hi = s.len();
    assert(s@.take(hi as int) =~= s@);
    while hi > 0 && s[hi - 1] == c
        invariant
            hi <= s@.len(),
            strip_trailing(s@, c) == strip_trailing(s@.take(hi as int), c),
        decreases hi,
    {
        assert(s@.take(hi as int).drop_last() =~= s@.take(hi - 1));
        hi -= 1;
    }
    slice_of(s, 0, hi)
}

fn prisma_model_exec(line: &[char]) -> (r: Option<Vec<char>>)
    ensures
        opt_chars(r) == prisma_model(line@),
{
    let t = trim_chars(line);
    if !starts_with(t.as_slice(), "model ") {
        return None;
    }
    let rest = after_prefix(t.as_slice(), "model ");
    match first_word_exec(rest.as_slice()) {
        None => None,
        Some(w) => {
            let a = strip_trailing_exec(w.as_slice(), '{');
            let b = trim_chars(a.as_slice());
            if b.len() > 0 {
                Some(b)
            } else {
                None
            }
        },
    }
}

fn go_model_exec(line: &[char]) -> (r: Option<Vec<char>>)
    ensures
        opt_chars(r) == go_model(line@),
{
    let t = trim_chars(line);
    if !(starts_with(t.as_slice(), "type ") && contains(t.as_slice(), " struct")) {
        return None;
    }
    let rest = after_prefix(t.as_slice(), "type ");
    match first_word_exec(rest.as_slice()) {
        None => None,
        Some(w) => if w.len() > 0 {
            Some(w)
        } else {
            None
        },
    }
}

/// The name of the interface, type alias or class `line` declares.
fn extract_ts_model_name(line: &[char]) -> (r: Option<Vec<char>>)
    ensures
        opt_chars(r) == ts_model_name(line@),
{
    let (rest, d) = if starts_with(line, "interface ") || starts_with(line, "export interface ") {
        if starts_with(line, "export interface ") {
            (after_prefix(line, "export interface "), Delims::Declaration)
        } else {
            (after_prefix(line, "interface "), Delims::Declaration)
        }
    } else if starts_with(line, "type ") || starts_with(line, "export type ") {
        if starts_with(line, "export type ") {
            (after_prefix(line, "export type "), Delims::TypeAlias)
        } else {
            (after_prefix(line, "type "), Delims::TypeAlias)
        }
    } else if starts_with(line, "export class ") || starts_with(line, "class ") {
        if starts_with(line, "export class ") {
            (after_prefix(line, "export class "), Delims::Declaration)
        } else {
            (after_prefix(line, "class "), Delims::Declaration)
        }
    } else {
        return None;
    };
    let name = lead_exec(rest.as_slice(), &d);
    if name.len() > 0 {
        Some(name)
    } else {
        None
    }
}

/// Whether a name is that of props, parameters, options, configuration or
/// a request or response rather than a model.
fn is_utility_type(name: &[char]) -> (r: bool)
    ensures
        r == is_utility(name@),
{
    contains(name, "Props") || contains(name, "Params") || contains(name, "Options") || contains(
        name,
        "Config",
    ) || contains(name, "Response") || contains(name, "Request")
}

fn model_in_line_exec(syn: &ModelSyntax, line: &[char]) -> (r: Option<Vec<char>>)
    ensures
        opt_chars(r) == model_in_line(*syn, line@),
{
    match syn {
        ModelSyntax::Prisma => prisma_model_exec(line),
        ModelSyntax::Go => go_model_exec(line),
        ModelSyntax::TypeScript => {
            let t = trim_chars(line);
            match extract_ts_model_name(t.as_slice()) {
                Some(n) => if is_utility_type(n.as_slice()) {
                    None
                } else {
                    Some(n)
                },
                None => None,
            }
        },
    }
}

/// Adds `n` to `models` unless it is already there.
fn add_name_exec(models: &mut Vec<String>, n: &[char])
    ensures
        strs(final(models)@) == add_name(strs(old(models)@), n@),
{
    let k = models.len();
    for i in 0..k
        invariant
            k == models@.len(),
            models@ == old(models)@,
            forall|j: int| 0 <= j < i ==> models@[j]@ != n@,
    {
        let mc = chars_of(models[i].as_str());
        if eq_chars(mc.as_slice(), n) {
            assert(strs(models@)[i as int] == n@);
            return ;
        }
    }
    assert(!strs(models@).contains(n@)) by {
        if strs(models@).contains(n@) {
            let j = choose|j: int| 0 <= j < strs(models@).len() && strs(models@)[j] == n@;
            assert(models@[j]@ == n@);
        }
    }
    let ghost before = strs(models@);
    models.push(string_of(n));
    assert(strs(models@) =~= before.push(n@));
}

/// Adds the model of each line in turn.
fn add_models_exec(models: &mut Vec<String>, ls: &Vec<Vec<char>>, syn: &ModelSyntax)
    ensures
        strs(final(models)@) == add_models(strs(old(models)@), views(ls@), *syn),
{
    let n = ls.len();
    let ghost start = strs(models@);
    let ghost vl = views(ls@);
    assert(vl.take(0) =~= Seq::<Seq<char>>::empty());
    for i in 0..n
        invariant
            n == ls@.len(),
            vl == views(ls@),
            strs(models@) == add_models(start, vl.take(i as int), *syn),
    {
        assert(vl.take(i + 1).drop_last() =~= vl.take(i as int));
        assert(vl.take(i + 1).last() == ls@[i as int]@);
        match model_in_line_exec(syn, ls[i].as_slice()) {
            Some(name) => add_name_exec(models, name.as_slice()),
            None => {},
        }
    }
    assert(vl.take(n as int) =~= vl);
}

// ---------------------------------------------------------------------------
// Visiting entries
// ---------------------------------------------------------------------------

/// Whether a file of this size is read (at most 200 KiB, or of unknown size).
pub fn within_size_limit(size: Option<u64>) -> (r: bool)
    ensures
        r == !too_large(size),
{
    match size {
        Some(s) => s <= 200 * 1024,
        None => true,
    }
}

/// The extension of a file name, or nothing.
pub fn extension_of(name: &[char]) -> (r: Vec<char>)
    ensures
        r@ == extension(name@),
{
    let e = last_piece_chars(name, '.');
    if e.len() < name.len() && e.len() + 1 < name.len() {
        e
    } else {
        Vec::new()
    }
}

fn migration_label_exec(rel: &[char], count: u32) -> (r: String)
    ensures
        r@ == migration_label(rel@, count),
{
    let open = chars_of(" (");
    let close = chars_of(" files)");
    let digits = decimal_chars(count as u64);
    let a = concat(rel, open.as_slice());
    let b = concat(a.as_slice(), digits.as_slice());
    let c = concat(b.as_slice(), close.as_slice());
    string_of(c.as_slice())
}

/// Whether some string of `items` begins with `p`.
fn any_has_prefix(items: &Vec<String>, p: &[char]) -> (r: bool)
    ensures
        r == some_has_prefix(strs(items@), p@),
{
    let k = items.len();
    for i in 0..k
        invariant
            k == items@.len(),
            forall|j: int| 0 <= j < i ==> !has_prefix(#[trigger] strs(items@)[j], p@),
    {
        let mc = chars_of(items[i].as_str());
        assert(strs(items@)[i as int] == mc@);
        if starts_with_chars(mc.as_slice(), p) {
            return true;
        }
    }
    assert(!some_has_prefix(strs(items@), p@)) by {
        if some_has_prefix(strs(items@), p@) {
            let j = choose|j: int| 0 <= j < strs(items@).len() && has_prefix(#[trigger] strs(items@)[j], p@);
            assert(0 <= j < k);
        }
    }
    false
}

fn visit_dir_exec(d: &mut DataLayer, rel: &[char], name: &[char], count: u32)
    ensures
        layer_view(*final(d)) == visit_dir(layer_view(*old(d)), rel@, name@, count),
{
    let ghost m0 = layer_view(*d);
    let named = (is(name, "migrations") || is(name, "migrate")) && count > 0;
    if named {
        let label = migration_label_exec(rel, count);
        let ghost before = strs(d.migration_dirs@);
        d.migration_dirs.push(label);
        assert(strs(d.migration_dirs@) =~= before.push(migration_label(rel@, count)));
    }
    let ghost m1 = if named {
        with_migration(m0, migration_label(rel@, count))
    } else {
        m0
    };
    assert(layer_view(*d) == m1);
    if (ends_with(rel, "db/migrations") || ends_with(rel, "prisma/migrations")) && count > 0 {
        let listed = any_has_prefix(&d.migration_dirs, rel);
        assert(strs(d.migration_dirs@) == m1.migrations);
        if !listed {
            let label = migration_label_exec(rel, count);
            let ghost before = strs(d.migration_dirs@);
            d.migration_dirs.push(label);
            assert(strs(d.migration_dirs@) =~= before.push(migration_label(rel@, count)));
        }
    }
}

fn visit_file_exec(
    d: &mut DataLayer,
    rel: &[char],
    name: &[char],
    parent: &[char],
    size: Option<u64>,
    content: &Option<String>,
)
    ensures
        layer_view(*final(d)) == visit_file(
            layer_view(*old(d)),
            rel@,
            name@,
            parent@,
            size,
            opt_str(*content),
        ),
{
    if !within_size_limit(size) {
        return ;
    }
    let ext = extension_of(name);
    if is(name, "schema.prisma") {
        let ghost before = strs(d.schema_files@);
        d.schema_files.push(string_of(rel));
        assert(strs(d.schema_files@) =~= before.push(rel@));
        match content {
            Some(c) => {
                let ls = lines_str(c.as_str());
                add_models_exec(&mut d.model_names, &ls, &ModelSyntax::Prisma);
                if d.orm.is_none() {
                    d.orm = Some(string_from("Prisma"));
                }
            },
            None => {},
        }
    } else if is(name, "schema.sql") || ends_with(name, ".up.sql") || (starts_with(
        name,
        "create_",
    ) && ends_with(name, ".sql")) {
        let ghost before = strs(d.schema_files@);
        d.schema_files.push(string_of(rel));
        assert(strs(d.schema_files@) =~= before.push(rel@));
    } else if is(ext.as_slice(), "go") {
        match content {
            Some(c) => {
                if is(parent, "models") || is(parent, "model") || is(parent, "entities") || is(
                    parent,
                    "entity",
                ) || is(parent, "domain") {
                    let ls = lines_str(c.as_str());
                    add_models_exec(&mut d.model_names, &ls, &ModelSyntax::Go);
                    if d.orm.is_none() {
                        let cv = chars_of(c.as_str());
                        if contains(cv.as_slice(), "gorm") {
                            d.orm = Some(string_from("GORM"));
                        } else if contains(cv.as_slice(), "json:") {
                            d.orm = Some(string_from("Go structs"));
                        }
                    }
                }
            },
            None => {},
        }
    } else if is(ext.as_slice(), "ts") || is(ext.as_slice(), "js") || is(ext.as_slice(), "tsx")
        || is(ext.as_slice(), "jsx") {
        match content {
            Some(c) => {
                if is(parent, "models") || is(parent, "model") || is(parent, "types") || is(
                    parent,
                    "entities",
                ) || is(parent, "schemas") {
                    let ls = lines_str(c.as_str());
                    add_models_exec(&mut d.model_names, &ls, &ModelSyntax::TypeScript);
                }
                if d.orm.is_none() {
                    let cv = chars_of(c.as_str());
                    d.orm = script_orm_exec(cv.as_slice());
                }
            },
            None => {},
        }
    }
}

/// The ORM a TypeScript or JavaScript text uses.
fn script_orm_exec(c: &[char]) -> (r: Option<String>)
    ensures
        opt_str(r) == script_orm(c@),
{
    if contains(c, "@Entity") {
        Some(string_from("TypeORM"))
    } else if contains(c, "mongoose.model") || contains(c, "mongoose.Schema") {
        Some(string_from("Mongoose"))
    } else if contains(c, "sequelize.define") || (contains(c, "Sequelize") && contains(
        c,
        "DataTypes",
    )) {
        Some(string_from("Sequelize"))
    } else if contains(c, "pgTable") || contains(c, "sqliteTable") || contains(c, "mysqlTable") {
        Some(string_from("Drizzle"))
    } else {
        None
    }
}

/// The data layer of a project from a walk of it, entry by entry in the
/// order of the walk; `has_drizzle_dir` tells whether the root holds a
/// `drizzle` folder.
pub fn detect_data_layer(entries: &Vec<WalkEntry>, has_drizzle_dir: bool) -> (d: DataLayer)
    ensures
        layer_view(d) == data_layer_of(entries@, has_drizzle_dir),
{
    let mut d = DataLayer {
        model_names: Vec::new(),
        schema_files: Vec::new(),
        migration_dirs: Vec::new(),
        orm: None,
    };
    assert(strs(d.model_names@) =~= Seq::<Seq<char>>::empty());
    assert(strs(d.schema_files@) =~= Seq::<Seq<char>>::empty());
    assert(strs(d.migration_dirs@) =~= Seq::<Seq<char>>::empty());
    assert(entries@.take(0) =~= Seq::<WalkEntry>::empty());
    let n = entries.len();
    for i in 0..n
        invariant
            n == entries@.len(),
            layer_view(d) == visit_all(entries@.take(i as int)),
    {
        assert(entries@.take(i + 1).drop_last() =~= entries@.take(i as int));
        assert(entries@.take(i + 1).last() == entries@[i as int]);
        let e = &entries[i];
        let raw = chars_of(e.rel_path.as_str());
        let rel = replace_char_chars(raw.as_slice(), '\\', '/');
        let name = chars_of(e.name.as_str());
        match &e.kind {
            EntryKind::Dir { file_count } => {
                visit_dir_exec(&mut d, rel.as_slice(), name.as_slice(), *file_count);
            },
            EntryKind::File { size, content } => {
                let parent = chars_of(e.parent_name.as_str());
                visit_file_exec(
                    &mut d,
                    rel.as_slice(),
                    name.as_slice(),
                    parent.as_slice(),
                    *size,
                    content,
                );
            },
            EntryKind::Other => {},
        }
    }
    assert(entries@.take(n as int) =~= entries@);
    if d.orm.is_none() && has_drizzle_dir {
        d.orm = Some(string_from("Drizzle"));
    }
    d
}

} // verus!
