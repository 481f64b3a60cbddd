//! The registry a client keeps: the collections declared so far, the links
//! between them, and the migrations that declaring them ran.
use vstd::prelude::*;
use crate::schema::{
    AddCollectionInput, CollectionView, DynamicCollection, collection_from_input,
    create_table_sql, valid_collection_input,
};
use crate::sql::{StatementBuilder, quoted};

verus! {

/// A link from one collection to another, by their names.
pub struct FromTo {
    pub from: String,
    pub to: String,
}

/// The links that have been declared.
pub struct LinkInformations {
    pub optional_to_many: Vec<FromTo>,
    pub many_to_many: Vec<FromTo>,
    pub timestamped: Vec<String>,
}

/// Why a collection was not added.
#[derive(Debug, PartialEq, Eq, Structural)]
pub enum AddCollectionError {
    CollectionAlreadyExists,
    InvalidCollectionInput,
}

/// Why a link was not added.
#[derive(Debug, PartialEq, Eq, Structural)]
pub enum AddLinkError {
    LinkAlreadyExists,
    CollectionNotFound,
}

/// A link to declare.
pub enum AddLinkInput {
    /// Each `from` row points to at most one `to` row.
    OptionalToMany { from: String, to: String },
    /// Rows of `from` and `to` are paired through a junction table.
    ManyToMany { from: String, to: String },
    /// Rows of `collection` carry creation and update times.
    Timestamp { collection: String },
}

/// The collections, links and migrations of a client.
pub struct Registry {
    collections: Vec<DynamicCollection>,
    link_info: LinkInformations,
    migration: Vec<String>,
}

/// A registry by its plain parts.
#[verifier::ext_equal]
pub struct RegistryView {
    pub collections: Seq<CollectionView>,
    pub optional_to_many: Seq<(Seq<char>, Seq<char>)>,
    pub many_to_many: Seq<(Seq<char>, Seq<char>)>,
    pub timestamped: Seq<Seq<char>>,
    pub migration: Seq<Seq<char>>,
}

/// The pairs of names that a list of links holds.
pub open spec fn pairs_view(v: Seq<FromTo>) -> Seq<(Seq<char>, Seq<char>)> {
    v.map_values(|p: FromTo| (p.from@, p.to@))
}

/// The texts that a list of strings holds.
pub open spec fn strings_view(v: Seq<String>) -> Seq<Seq<char>> {
    v.map_values(|s: String| s@)
}

impl View for Registry {
    type V = RegistryView;

    closed spec fn view(&self) -> RegistryView {
        RegistryView {
            collections: self.collections@.map_values(|c: DynamicCollection| c@),
            optional_to_many: pairs_view(self.link_info.optional_to_many@),
            many_to_many: pairs_view(self.link_info.many_to_many@),
            timestamped: strings_view(self.link_info.timestamped@),
            migration: strings_view(self.migration@),
        }
    }
}

/// Whether a collection of that name is registered.
pub open spec fn has_collection(cols: Seq<CollectionView>, name: Seq<char>) -> bool {
    exists|i: int| 0 <= i < cols.len() && (#[trigger] cols[i]).name == name
}

/// The registered collection of that name.
pub open spec fn collection_named(cols: Seq<CollectionView>, name: Seq<char>) -> CollectionView {
    cols[choose|i: int| 0 <= i < cols.len() && (#[trigger] cols[i]).name == name]
}

/// Whether no two collections share a name.
pub open spec fn distinct_collection_names(cols: Seq<CollectionView>) -> bool {
    forall|i: int, j: int|
        0 <= i < cols.len() && 0 <= j < cols.len() && i != j ==> (#[trigger] cols[i]).name
            != (#[trigger] cols[j]).name
}

/// Whether no value occurs twice.
pub open spec fn no_repeats<A>(s: Seq<A>) -> bool {
    forall|i: int, j: int| 0 <= i < s.len() && 0 <= j < s.len() && i != j ==> s[i] != s[j]
}

/// Whether every link joins registered collections.
pub open spec fn links_registered(
    cols: Seq<CollectionView>,
    links: Seq<(Seq<char>, Seq<char>)>,
) -> bool {
    forall|k: int|
        0 <= k < links.len() ==> has_collection(cols, (#[trigger] links[k]).0) && has_collection(
            cols,
            links[k].1,
        )
}

/// The registry's invariant: collection names are unique, every link joins
/// registered collections, and no link is declared twice.
pub open spec fn registry_wf(r: RegistryView) -> bool {
    &&& distinct_collection_names(r.collections)
    &&& links_registered(r.collections, r.optional_to_many)
    &&& links_registered(r.collections, r.many_to_many)
    &&& forall|k: int|
        0 <= k < r.timestamped.len() ==> has_collection(r.collections, #[trigger] r.timestamped[k])
    &&& no_repeats(r.optional_to_many)
    &&& no_repeats(r.many_to_many)
    &&& no_repeats(r.timestamped)
}

/// A statement result by its text.
pub open spec fn sql_result<E>(r: Result<String, E>) -> Result<Seq<char>, E> {
    match r {
        Ok(s) => Ok(s@),
        Err(e) => Err(e),
    }
}

/// What declaring a collection does: refuses an invalid declaration, then
/// a name already registered; otherwise registers the collection and
/// records its migration.
pub open spec fn add_collection_outcome(r: RegistryView, input: AddCollectionInput) -> (
    RegistryView,
    Result<Seq<char>, AddCollectionError>,
) {
    if !valid_collection_input(input) {
        (r, Err(AddCollectionError::InvalidCollectionInput))
    } else if has_collection(r.collections, input.name@) {
        (r, Err(AddCollectionError::CollectionAlreadyExists))
    } else {
        let c = collection_from_input(input);
        let sql = create_table_sql(c);
        (RegistryView { collections: r.collections.push(c), migration: r.migration.push(sql), ..r }, Ok(sql))
    }
}

/// The column through which a row points to a row of `to`.
pub open spec fn fk_column(to: Seq<char>) -> Seq<char> {
    "fk_"@ + to + "_def"@
}

/// The junction table of a many-to-many link.
pub open spec fn junction_table(from: Seq<char>, to: Seq<char>) -> Seq<char> {
    "ct_"@ + from + to + "_def"@
}

/// The junction column that holds the id of a row of `name`.
pub open spec fn id_column(name: Seq<char>) -> Seq<char> {
    name + "_id"@
}

/// The migration of an optional-to-many link: a nullable reference column
/// on the `from` table.
pub open spec fn optional_to_many_sql(from_table: Seq<char>, to: Seq<char>, to_table: Seq<char>) -> Seq<char> {
    "ALTER TABLE "@ + quoted(from_table) + " ADD COLUMN "@ + quoted(fk_column(to))
        + " INTEGER  REFERENCES "@ + quoted(to_table) + "(\"id\") ON DELETE SET NULL;"@
}

/// The migration of a many-to-many link: a junction table whose rows pair
/// the ids of both sides.
pub open spec fn many_to_many_sql(
    from: Seq<char>,
    from_table: Seq<char>,
    to: Seq<char>,
    to_table: Seq<char>,
) -> Seq<char> {
    "CREATE TABLE "@ + quoted(junction_table(from, to)) + " ("@ + quoted(id_column(from))
        + " INTEGER NOT NULL  REFERENCES "@ + quoted(from_table) + "(\"id\") ON DELETE CASCADE, "@
        + quoted(id_column(to)) + " INTEGER NOT NULL  REFERENCES "@ + quoted(to_table)
        + "(\"id\") ON DELETE CASCADE, PRIMARY KEY ("@ + quoted(id_column(from)) + ", "@
        + quoted(id_column(to)) + "));"@
}

/// The migration of a timestamp link: two time columns, set when a row is
/// inserted, and the update time refreshed when a row changes without
/// setting it.
pub open spec fn timestamp_sql(table: Seq<char>) -> Seq<char> {
    "ALTER TABLE "@ + quoted(table) + " ADD COLUMN \"created_at\" TEXT; ALTER TABLE "@ + quoted(table)
        + " ADD COLUMN \"updated_at\" TEXT; CREATE TRIGGER "@ + quoted(table + "_created_at"@)
        + " AFTER INSERT ON "@ + quoted(table) + " BEGIN UPDATE "@ + quoted(table)
        + " SET \"created_at\" = CURRENT_TIMESTAMP, \"updated_at\" = CURRENT_TIMESTAMP WHERE \"id\" = NEW.\"id\"; END; CREATE TRIGGER "@
        + quoted(table + "_updated_at"@) + " AFTER UPDATE ON "@ + quoted(table)
        + " WHEN NEW.\"updated_at\" IS OLD.\"updated_at\" BEGIN UPDATE "@ + quoted(table)
        + " SET \"updated_at\" = CURRENT_TIMESTAMP WHERE \"id\" = NEW.\"id\"; END;"@
}

/// What declaring a link does: refuses a link already declared, then one
/// whose collections are not registered; otherwise records the link and
/// its migration.
pub open spec fn add_link_outcome(r: RegistryView, input: AddLinkInput) -> (
    RegistryView,
    Result<Seq<char>, AddLinkError>,
) {
    match input {
        AddLinkInput::OptionalToMany { from, to } => {
            let pair = (from@, to@);
            if r.optional_to_many.contains(pair) {
                (r, Err(AddLinkError::LinkAlreadyExists))
            } else if !has_collection(r.collections, from@) || !has_collection(r.collections, to@) {
                (r, Err(AddLinkError::CollectionNotFound))
            } else {
                let sql = optional_to_many_sql(
                    collection_named(r.collections, from@).table,
                    to@,
                    collection_named(r.collections, to@).table,
                );
                (
                    RegistryView {
                        optional_to_many: r.optional_to_many.push(pair),
                        migration: r.migration.push(sql),
                        ..r
                    },
                    Ok(sql),
                )
            }
        },
        AddLinkInput::ManyToMany { from, to } => {
            let pair = (from@, to@);
            if r.many_to_many.contains(pair) {
                (r, Err(AddLinkError::LinkAlreadyExists))
            } else if !has_collection(r.collections, from@) || !has_collection(r.collections, to@) {
                (r, Err(AddLinkError::CollectionNotFound))
            } else {
                let sql = many_to_many_sql(
                    from@,
                    collection_named(r.collections, from@).table,
                    to@,
                    collection_named(r.collections, to@).table,
                );
                (
                    RegistryView {
                        many_to_many: r.many_to_many.push(pair),
                        migration: r.migration.push(sql),
                        ..r
                    },
                    Ok(sql),
                )
            }
        },
        AddLinkInput::Timestamp { collection } => {
            if r.timestamped.contains(collection@) {
                (r, Err(AddLinkError::LinkAlreadyExists))
            } else if !has_collection(r.collections, collection@) {
                (r, Err(AddLinkError::CollectionNotFound))
            } else {
                let sql = timestamp_sql(collection_named(r.collections, collection@).table);
                (
                    RegistryView {
                        timestamped: r.timestamped.push(collection@),
                        migration: r.migration.push(sql),
                        ..r
                    },
                    Ok(sql),
                )
            }
        },
    }
}

/// Declaring a collection that was just declared is refused as already
/// existing, and changes nothing; the first declaration registered it with
/// the fields it declared.
pub proof fn add_collection_twice_is_refused(r: RegistryView, input: AddCollectionInput)
    requires
        add_collection_outcome(r, input).1 is Ok,
    ensures
        has_collection(add_collection_outcome(r, input).0.collections, input.name@),
        add_collection_outcome(add_collection_outcome(r, input).0, input) == (
            add_collection_outcome(r, input).0,
            Err::<Seq<char>, AddCollectionError>(AddCollectionError::CollectionAlreadyExists),
        ),
{
    let after = add_collection_outcome(r, input).0;
    assert(after.collections[r.collections.len() as int].name == input.name@);
}

/// A refused declaration, of a collection or of a link, leaves the registry
/// as it was.
pub proof fn refused_declarations_change_nothing(
    r: RegistryView,
    c: AddCollectionInput,
    l: AddLinkInput,
)
    ensures
        add_collection_outcome(r, c).1 is Err ==> add_collection_outcome(r, c).0 == r,
        add_link_outcome(r, l).1 is Err ==> add_link_outcome(r, l).0 == r,
{
}

/// A link is only declared between registered collections, and declaring
/// it again is refused as already existing, changing nothing.
pub proof fn add_link_twice_is_refused(r: RegistryView, input: AddLinkInput)
    requires
        add_link_outcome(r, input).1 is Ok,
    ensures
        match input {
            AddLinkInput::OptionalToMany { from, to } => has_collection(r.collections, from@)
                && has_collection(r.collections, to@),
            AddLinkInput::ManyToMany { from, to } => has_collection(r.collections, from@)
                && has_collection(r.collections, to@),
            AddLinkInput::Timestamp { collection } => has_collection(r.collections, collection@),
        },
        add_link_outcome(add_link_outcome(r, input).0, input) == (
            add_link_outcome(r, input).0,
            Err::<Seq<char>, AddLinkError>(AddLinkError::LinkAlreadyExists),
        ),
{
    let after = add_link_outcome(r, input).0;
    match input {
        AddLinkInput::OptionalToMany { from, to } => {
            assert(after.optional_to_many[r.optional_to_many.len() as int] == (from@, to@));
        },
        AddLinkInput::ManyToMany { from, to } => {
            assert(after.many_to_many[r.many_to_many.len() as int] == (from@, to@));
        },
        AddLinkInput::Timestamp { collection } => {
            assert(after.timestamped[r.timestamped.len() as int] == collection@);
        },
    }
}

/// A registered collection keeps its name and contents once found.
proof fn lemma_named_is_found(cols: Seq<CollectionView>, i: int, name: Seq<char>)
    requires
        distinct_collection_names(cols),
        0 <= i < cols.len(),
        cols[i].name == name,
    ensures
        has_collection(cols, name),
        collection_named(cols, name) == cols[i],
{
    let j = choose|j: int| 0 <= j < cols.len() && (#[trigger] cols[j]).name == name;
    assert(cols[j].name == name);
}

/// Declarations keep the registry well formed: collection names stay
/// unique, links only join registered collections, and no link is recorded
/// twice; the migration log only grows, by the migration of the
/// declaration.
pub proof fn declarations_keep_registry_well_formed(r: RegistryView, c: AddCollectionInput, l: AddLinkInput)
    requires
        registry_wf(r),
    ensures
        registry_wf(add_collection_outcome(r, c).0),
        registry_wf(add_link_outcome(r, l).0),
        add_collection_outcome(r, c).0.migration == r.migration + match add_collection_outcome(r, c).1 {
            Ok(sql) => seq![sql],
            Err(_) => Seq::empty(),
        },
        add_link_outcome(r, l).0.migration == r.migration + match add_link_outcome(r, l).1 {
            Ok(sql) => seq![sql],
            Err(_) => Seq::empty(),
        },
{
    let after = add_collection_outcome(r, c).0;
    if add_collection_outcome(r, c).1 is Ok {
        let col = collection_from_input(c);
        let cols = after.collections;
        assert(cols == r.collections.push(col));
        assert forall|i: int, j: int|
            0 <= i < cols.len() && 0 <= j < cols.len() && i != j implies (#[trigger] cols[i]).name
            != (#[trigger] cols[j]).name by {
            if i == r.collections.len() {
                assert(!has_collection(r.collections, col.name));
                assert(r.collections[j] == cols[j]);
            } else if j == r.collections.len() {
                assert(!has_collection(r.collections, col.name));
                assert(r.collections[i] == cols[i]);
            } else {
                assert(r.collections[i] == cols[i]);
                assert(r.collections[j] == cols[j]);
            }
        }
        assert forall|k: int| 0 <= k < r.optional_to_many.len() implies has_collection(
            cols,
            (#[trigger] r.optional_to_many[k]).0,
        ) && has_collection(cols, r.optional_to_many[k].1) by {
            lemma_push_keeps_registered(r.collections, col, r.optional_to_many[k].0);
            lemma_push_keeps_registered(r.collections, col, r.optional_to_many[k].1);
        }
        assert forall|k: int| 0 <= k < r.many_to_many.len() implies has_collection(
            cols,
            (#[trigger] r.many_to_many[k]).0,
        ) && has_collection(cols, r.many_to_many[k].1) by {
            lemma_push_keeps_registered(r.collections, col, r.many_to_many[k].0);
            lemma_push_keeps_registered(r.collections, col, r.many_to_many[k].1);
        }
        assert forall|k: int| 0 <= k < r.timestamped.len() implies has_collection(cols, #[trigger] r.timestamped[k]) by {
            lemma_push_keeps_registered(r.collections, col, r.timestamped[k]);
        }
    } else {
        assert(r.migration + Seq::<Seq<char>>::empty() =~= r.migration);
    }
    if add_link_outcome(r, l).1 is Ok {
        match l {
            AddLinkInput::OptionalToMany { from, to } => {
                lemma_push_link(r.collections, r.optional_to_many, (from@, to@));
                lemma_push_no_repeats(r.optional_to_many, (from@, to@));
            },
            AddLinkInput::ManyToMany { from, to } => {
                lemma_push_link(r.collections, r.many_to_many, (from@, to@));
                lemma_push_no_repeats(r.many_to_many, (from@, to@));
            },
            AddLinkInput::Timestamp { collection } => {
                lemma_push_no_repeats(r.timestamped, collection@);
                let ts = add_link_outcome(r, l).0.timestamped;
                assert forall|k: int| 0 <= k < ts.len() implies has_collection(r.collections, #[trigger] ts[k]) by {
                    if k < r.timestamped.len() {
                        assert(ts[k] == r.timestamped[k]);
                    }
                }
            },
        }
    } else {
        assert(r.migration + Seq::<Seq<char>>::empty() =~= r.migration);
    }
}

/// Registering one more collection keeps every earlier one registered.
proof fn lemma_push_keeps_registered(cols: Seq<CollectionView>, c: CollectionView, name: Seq<char>)
    requires
        has_collection(cols, name),
    ensures
        has_collection(cols.push(c), name),
{
    let i = choose|i: int| 0 <= i < cols.len() && (#[trigger] cols[i]).name == name;
    assert(cols.push(c)[i] == cols[i]);
}

/// Adding a value not yet present keeps a sequence free of repeats.
proof fn lemma_push_no_repeats<A>(s: Seq<A>, a: A)
    requires
        no_repeats(s),
        !s.contains(a),
    ensures
        no_repeats(s.push(a)),
{
    assert forall|i: int, j: int|
        0 <= i < s.push(a).len() && 0 <= j < s.push(a).len() && i != j implies s.push(a)[i]
        != s.push(a)[j] by {
        if i < s.len() && j < s.len() {
        } else if i < s.len() {
            assert(s.contains(s[i]));
        } else {
            assert(s.contains(s[j]));
        }
    }
}

/// Recording one more link over registered collections keeps the links
/// registered.
proof fn lemma_push_link(
    cols: Seq<CollectionView>,
    links: Seq<(Seq<char>, Seq<char>)>,
    pair: (Seq<char>, Seq<char>),
)
    requires
        links_registered(cols, links),
        has_collection(cols, pair.0),
        has_collection(cols, pair.1),
    ensures
        links_registered(cols, links.push(pair)),
{
    assert forall|k: int| 0 <= k < links.push(pair).len() implies has_collection(
        cols,
        (#[trigger] links.push(pair)[k]).0,
    ) && has_collection(cols, links.push(pair)[k].1) by {
        if k < links.len() {
            assert(links.push(pair)[k] == links[k]);
        }
    }
}

/// Whether the list of links holds the pair `from`, `to`.
fn contains_pair(links: &Vec<FromTo>, from: &String, to: &String) -> (r: bool)
    ensures
        r == pairs_view(links@).contains((from@, to@)),
{
    let mut i: usize = 0;
    while i < links.len()
        invariant
            i <= links@.len(),
            forall|k: int| 0 <= k < i ==> pairs_view(links@)[k] != (from@, to@),
        decreases links@.len() - i,
    {
        if links[i].from == *from && links[i].to == *to {
            proof {
                assert(pairs_view(links@)[i as int] == (from@, to@));
            }
            return true;
        }
        i = i + 1;
    }
    false
}

/// Whether the list of names holds `name`.
fn contains_name(names: &Vec<String>, name: &String) -> (r: bool)
    ensures
        r == strings_view(names@).contains(name@),
{
    let mut i: usize = 0;
    while i < names.len()
        invariant
            i <= names@.len(),
            forall|k: int| 0 <= k < i ==> strings_view(names@)[k] != name@,
        decreases names@.len() - i,
    {
        if names[i] == *name {
            proof {
                assert(strings_view(names@)[i as int] == name@);
            }
            return true;
        }
        i = i + 1;
    }
    false
}

/// The migration of an optional-to-many link from `from` to `to`.
fn optional_to_many_statement(from: &DynamicCollection, to: &DynamicCollection) -> (r: String)
    ensures
        r@ == optional_to_many_sql(from@.table, to@.name, to@.table),
{
    let mut b = StatementBuilder::new();
    b.syntax("ALTER TABLE ");
    b.sanitize_str(from.collection_name.pascal_case.as_str());
    b.syntax(" ADD COLUMN ");
    let mut fk = String::new();
    fk.append("fk_");
    fk.append(to.collection_name.snake_case.as_str());
    fk.append("_def");
    b.sanitize_str(fk.as_str());
    b.syntax(" INTEGER  REFERENCES ");
    b.sanitize_str(to.collection_name.pascal_case.as_str());
    b.syntax("(\"id\") ON DELETE SET NULL;");
    proof {
        assert(fk@ =~= fk_column(to@.name));
        assert(b.sql@ =~= optional_to_many_sql(from@.table, to@.name, to@.table));
    }
    b.sql
}

/// The migration of a many-to-many link from `from` to `to`.
fn many_to_many_statement(from: &DynamicCollection, to: &DynamicCollection) -> (r: String)
    ensures
        r@ == many_to_many_sql(from@.name, from@.table, to@.name, to@.table),
{
    let f = from.collection_name.snake_case.as_str();
    let t = to.collection_name.snake_case.as_str();
    let mut junction = String::new();
    junction.append("ct_");
    junction.append(f);
    junction.append(t);
    junction.append("_def");
    let mut from_id = String::new();
    from_id.append(f);
    from_id.append("_id");
    let mut to_id = String::new();
    to_id.append(t);
    to_id.append("_id");
    let mut b = StatementBuilder::new();
    b.syntax("CREATE TABLE ");
    b.sanitize_str(junction.as_str());
    b.syntax(" (");
    b.sanitize_str(from_id.as_str());
    b.syntax(" INTEGER NOT NULL  REFERENCES ");
    b.sanitize_str(from.collection_name.pascal_case.as_str());
    b.syntax("(\"id\") ON DELETE CASCADE, ");
    b.sanitize_str(to_id.as_str());
    b.syntax(" INTEGER NOT NULL  REFERENCES ");
    b.sanitize_str(to.collection_name.pascal_case.as_str());
    b.syntax("(\"id\") ON DELETE CASCADE, PRIMARY KEY (");
    b.sanitize_str(from_id.as_str());
    b.syntax(", ");
    b.sanitize_str(to_id.as_str());
    b.syntax("));");
    proof {
        assert(junction@ =~= junction_table(from@.name, to@.name));
        assert(from_id@ =~= id_column(from@.name));
        assert(to_id@ =~= id_column(to@.name));
        assert(b.sql@ =~= many_to_many_sql(from@.name, from@.table, to@.name, to@.table));
    }
    b.sql
}

/// The migration of a timestamp link on `c`.
fn timestamp_statement(c: &DynamicCollection) -> (r: String)
    ensures
        r@ == timestamp_sql(c@.table),
{
    let table = c.collection_name.pascal_case.as_str();
    let mut created = String::new();
    created.append(table);
    created.append("_created_at");
    let mut updated = String::new();
    updated.append(table);
    updated.append("_updated_at");
    let mut b = StatementBuilder::new();
    b.syntax("ALTER TABLE ");
    b.sanitize_str(table);
    b.syntax(" ADD COLUMN \"created_at\" TEXT; ALTER TABLE ");
    b.sanitize_str(table);
    b.syntax(" ADD COLUMN \"updated_at\" TEXT; CREATE TRIGGER ");
    b.sanitize_str(created.as_str());
    b.syntax(" AFTER INSERT ON ");
    b.sanitize_str(table);
    b.syntax(" BEGIN UPDATE ");
    b.sanitize_str(table);
    b.syntax(
        " SET \"created_at\" = CURRENT_TIMESTAMP, \"updated_at\" = CURRENT_TIMESTAMP WHERE \"id\" = NEW.\"id\"; END; CREATE TRIGGER ",
    );
    b.sanitize_str(updated.as_str());
    b.syntax(" AFTER UPDATE ON ");
    b.sanitize_str(table);
    b.syntax(" WHEN NEW.\"updated_at\" IS OLD.\"updated_at\" BEGIN UPDATE ");
    b.sanitize_str(table);
    b.syntax(" SET \"updated_at\" = CURRENT_TIMESTAMP WHERE \"id\" = NEW.\"id\"; END;");
    proof {
        assert(created@ =~= c@.table + "_created_at"@);
        assert(updated@ =~= c@.table + "_updated_at"@);
        assert(b.sql@ =~= timestamp_sql(c@.table));
    }
    b.sql
}

impl Registry {
    /// The registry's invariant.
    pub open spec fn wf(&self) -> bool {
        registry_wf(self@)
    }

    /// A registry with nothing declared.
    pub fn new() -> (r: Registry)
        ensures
            r.wf(),
            r@.collections.len() == 0,
            r@.optional_to_many.len() == 0,
            r@.many_to_many.len() == 0,
            r@.timestamped.len() == 0,
            r@.migration.len() == 0,
    {
        let r = Registry {
            collections: Vec::new(),
            link_info: LinkInformations {
                optional_to_many: Vec::new(),
                many_to_many: Vec::new(),
                timestamped: Vec::new(),
            },
            migration: Vec::new(),
        };
        proof {
            assert(r@.collections.len() == 0);
            assert(r@.timestamped.len() == 0);
        }
        r
    }

    /// The position of the collection named `name`, if it is registered.
    pub fn find_collection(&self, name: &str) -> (r: Option<usize>)
        requires
            self.wf(),
        ensures
            r is None <==> !has_collection(self@.collections, name@),
            r matches Some(i) ==> {
                &&& i < self@.collections.len()
                &&& self@.collections[i as int].name == name@
                &&& collection_named(self@.collections, name@) == self@.collections[i as int]
            },
    {
        let key: String = name.to_owned();
        let mut i: usize = 0;
        while i < self.collections.len()
            invariant
                i <= self.collections@.len(),
                key@ == name@,
                self.wf(),
                self@.collections.len() == self.collections@.len(),
                forall|k: int| 0 <= k < i ==> (#[trigger] self@.collections[k]).name != name@,
            decreases self.collections@.len() - i,
        {
            if self.collections[i].collection_name.snake_case == key {
                proof {
                    assert(self@.collections[i as int] == self.collections@[i as int]@);
                    lemma_named_is_found(self@.collections, i as int, name@);
                }
                return Some(i);
            }
            proof {
                assert(self@.collections[i as int] == self.collections@[i as int]@);
            }
            i = i + 1;
        }
        None
    }

    /// The collection at a position found by `find_collection`.
    pub fn collection_at(&self, i: usize) -> (r: &DynamicCollection)
        requires
            i < self@.collections.len(),
        ensures
            r@ == self@.collections[i as int],
    {
        proof {
            assert(self@.collections.len() == self.collections@.len());
        }
        &self.collections[i]
    }

    /// Whether an optional-to-many link from `from` to `to` is declared.
    pub fn has_optional_to_many(&self, from: &String, to: &String) -> (r: bool)
        ensures
            r == self@.optional_to_many.contains((from@, to@)),
    {
        contains_pair(&self.link_info.optional_to_many, from, to)
    }

    /// Whether a many-to-many link from `from` to `to` is declared.
    pub fn has_many_to_many(&self, from: &String, to: &String) -> (r: bool)
        ensures
            r == self@.many_to_many.contains((from@, to@)),
    {
        contains_pair(&self.link_info.many_to_many, from, to)
    }

    /// Whether `name` carries timestamps.
    pub fn is_timestamped(&self, name: &String) -> (r: bool)
        ensures
            r == self@.timestamped.contains(name@),
    {
        contains_name(&self.link_info.timestamped, name)
    }

    /// The migrations run so far, in order.
    pub fn migrations(&self) -> (r: &Vec<String>)
        ensures
            strings_view(r@) == self@.migration,
    {
        &self.migration
    }

    /// Declares a collection. On success the returned migration creates its
    /// table, and the caller runs it.
    pub fn add_collection(&mut self, input: &AddCollectionInput) -> (r: Result<String, AddCollectionError>)
        requires
            old(self).wf(),
        ensures
            final(self).wf(),
            (final(self)@, sql_result(r)) == add_collection_outcome(old(self)@, *input),
    {
        let dc = match DynamicCollection::try_from(input) {
            Ok(dc) => dc,
            Err(_) => return Err(AddCollectionError::InvalidCollectionInput),
        };
        if self.find_collection(input.name.as_str()).is_some() {
            return Err(AddCollectionError::CollectionAlreadyExists);
        }
        let sql = dc.create_table_statement();
        let ghost old_view = self@;
        self.collections.push(dc);
        self.migration.push(sql.clone());
        proof {
            let c = collection_from_input(*input);
            assert(self@.collections =~= old_view.collections.push(c));
            assert(self@.migration =~= old_view.migration.push(sql@));
            assert(self@.optional_to_many =~= old_view.optional_to_many);
            assert(self@.many_to_many =~= old_view.many_to_many);
            assert(self@.timestamped =~= old_view.timestamped);
            let cols = self@.collections;
            assert forall|i: int, j: int|
                0 <= i < cols.len() && 0 <= j < cols.len() && i != j implies (#[trigger] cols[i]).name
                != (#[trigger] cols[j]).name by {
                if i == old_view.collections.len() {
                    assert(!has_collection(old_view.collections, c.name));
                    assert(old_view.collections[j] == cols[j]);
                } else if j == old_view.collections.len() {
                    assert(!has_collection(old_view.collections, c.name));
                    assert(old_view.collections[i] == cols[i]);
                } else {
                    assert(old_view.collections[i] == cols[i]);
                    assert(old_view.collections[j] == cols[j]);
                }
            }
            assert forall|k: int| 0 <= k < old_view.optional_to_many.len() implies has_collection(
                cols,
                (#[trigger] old_view.optional_to_many[k]).0,
            ) && has_collection(cols, old_view.optional_to_many[k].1) by {
                lemma_push_keeps_registered(old_view.collections, c, old_view.optional_to_many[k].0);
                lemma_push_keeps_registered(old_view.collections, c, old_view.optional_to_many[k].1);
            }
            assert forall|k: int| 0 <= k < old_view.many_to_many.len() implies has_collection(
                cols,
                (#[trigger] old_view.many_to_many[k]).0,
            ) && has_collection(cols, old_view.many_to_many[k].1) by {
                lemma_push_keeps_registered(old_view.collections, c, old_view.many_to_many[k].0);
                lemma_push_keeps_registered(old_view.collections, c, old_view.many_to_many[k].1);
            }
            assert forall|k: int| 0 <= k < old_view.timestamped.len() implies has_collection(
                cols,
                #[trigger] old_view.timestamped[k],
            ) by {
                lemma_push_keeps_registered(old_view.collections, c, old_view.timestamped[k]);
            }
        }
        Ok(sql)
    }

    /// Declares a link. On success the returned migration sets it up in the
    /// database, and the caller runs it.
    pub fn add_link(&mut self, input: &AddLinkInput) -> (r: Result<String, AddLinkError>)
        requires
            old(self).wf(),
        ensures
            final(self).wf(),
            (final(self)@, sql_result(r)) == add_link_outcome(old(self)@, *input),
    {
        let ghost old_view = self@;
        match input {
            AddLinkInput::OptionalToMany { from, to } => {
                if self.has_optional_to_many(from, to) {
                    return Err(AddLinkError::LinkAlreadyExists);
                }
                let fi = match self.find_collection(from.as_str()) {
                    Some(i) => i,
                    None => return Err(AddLinkError::CollectionNotFound),
                };
                let ti = match self.find_collection(to.as_str()) {
                    Some(i) => i,
                    None => return Err(AddLinkError::CollectionNotFound),
                };
                let sql = optional_to_many_statement(self.collection_at(fi), self.collection_at(ti));
                self.link_info.optional_to_many.push(FromTo { from: from.clone(), to: to.clone() });
                self.migration.push(sql.clone());
                proof {
                    assert(self@.optional_to_many =~= old_view.optional_to_many.push((from@, to@)));
                    assert(self@.migration =~= old_view.migration.push(sql@));
                    assert(self@.collections =~= old_view.collections);
                    assert(self@.many_to_many =~= old_view.many_to_many);
                    assert(self@.timestamped =~= old_view.timestamped);
                    lemma_push_link(old_view.collections, old_view.optional_to_many, (from@, to@));
                    lemma_push_no_repeats(old_view.optional_to_many, (from@, to@));
                }
                Ok(sql)
            },
            AddLinkInput::ManyToMany { from, to } => {
                if self.has_many_to_many(from, to) {
                    return Err(AddLinkError::LinkAlreadyExists);
                }
                let fi = match self.find_collection(from.as_str()) {
                    Some(i) => i,
                    None => return Err(AddLinkError::CollectionNotFound),
                };
                let ti = match self.find_collection(to.as_str()) {
                    Some(i) => i,
                    None => return Err(AddLinkError::CollectionNotFound),
                };
                let sql = many_to_many_statement(self.collection_at(fi), self.collection_at(ti));
                self.link_info.many_to_many.push(FromTo { from: from.clone(), to: to.clone() });
                self.migration.push(sql.clone());
                proof {
                    assert(self@.many_to_many =~= old_view.many_to_many.push((from@, to@)));
                    assert(self@.migration =~= old_view.migration.push(sql@));
                    assert(self@.collections =~= old_view.collections);
                    assert(self@.optional_to_many =~= old_view.optional_to_many);
                    assert(self@.timestamped =~= old_view.timestamped);
                    lemma_push_link(old_view.collections, old_view.many_to_many, (from@, to@));
                    lemma_push_no_repeats(old_view.many_to_many, (from@, to@));
                }
                Ok(sql)
            },
            AddLinkInput::Timestamp { collection } => {
                if self.is_timestamped(collection) {
                    return Err(AddLinkError::LinkAlreadyExists);
                }
                let ci = match self.find_collection(collection.as_str()) {
                    Some(i) => i,
                    None => return Err(AddLinkError::CollectionNotFound),
                };
                let sql = timestamp_statement(self.collection_at(ci));
                self.link_info.timestamped.push(collection.clone());
                self.migration.push(sql.clone());
                proof {
                    assert(self@.timestamped =~= old_view.timestamped.push(collection@));
                    assert(self@.migration =~= old_view.migration.push(sql@));
                    assert(self@.collections =~= old_view.collections);
                    assert(self@.optional_to_many =~= old_view.optional_to_many);
                    assert(self@.many_to_many =~= old_view.many_to_many);
                    lemma_push_no_repeats(old_view.timestamped, collection@);
                    let ts = self@.timestamped;
                    assert forall|k: int| 0 <= k < ts.len() implies has_collection(
                        self@.collections,
                        #[trigger] ts[k],
                    ) by {
                        if k < old_view.timestamped.len() {
                            assert(ts[k] == old_view.timestamped[k]);
                        }
                    }
                }
                Ok(sql)
            },
        }
    }
}


impl AddCollectionError {
    /// The name of the error, as responses carry it.
    pub open spec fn spec_name(&self) -> Seq<char> {
        match self {
            AddCollectionError::CollectionAlreadyExists => "CollectionAlreadyExists"@,
            AddCollectionError::InvalidCollectionInput => "InvalidCollectionInput"@,
        }
    }

    /// The name of the error, as responses carry it.
    pub fn name(&self) -> (r: &'static str)
        ensures
            r@ == self.spec_name(),
    {
        match self {
            AddCollectionError::CollectionAlreadyExists => "CollectionAlreadyExists",
            AddCollectionError::InvalidCollectionInput => "InvalidCollectionInput",
        }
    }
}


impl AddLinkError {
    /// The name of the error, as responses carry it.
    pub open spec fn spec_name(&self) -> Seq<char> {
        match self {
            AddLinkError::LinkAlreadyExists => "LinkAlreadyExists"@,
            AddLinkError::CollectionNotFound => "CollectionNotFound"@,
        }
    }

    /// The name of the error, as responses carry it.
    pub fn name(&self) -> (r: &'static str)
        ensures
            r@ == self.spec_name(),
    {
        match self {
            AddLinkError::LinkAlreadyExists => "LinkAlreadyExists",
            AddLinkError::CollectionNotFound => "CollectionNotFound",
        }
    }
}

} // verus!
