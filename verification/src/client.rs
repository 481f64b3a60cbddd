//! The client: it takes a request `{"op": ..., "body": ...}`, answers it
//! at once, hands back a migration to run, or starts a session that talks
//! to the database until it answers.
use vstd::prelude::*;
use crate::delete::{DeletePlan, delete_one_error, delete_links_view, delete_step, delete_step_spec, plan_delete_one};
use crate::fetch::{FetchOnePlan, fetch_links_input_view, fetch_one_error, fetch_one_step, fetch_one_step_spec, plan_fetch_one};
use crate::fetch_many::{FetchManyPlan, fetch_many_error, fetch_many_plan_wf, fetch_many_step, fetch_many_step_spec, first_data, order_names, plan_fetch_many};
use crate::filters::filters_view;
use crate::insert::{
    InsertManyPlan, InsertPlan, insert_links_view, insert_many_step, insert_many_step_spec, insert_one_error,
    insert_step, insert_step_spec, plan_insert_many, plan_insert_one, plan_wf, results_view,
};
use crate::json::{Json, JsonValue};
use crate::registry::{Registry, RegistryView, add_collection_outcome, add_link_outcome, registry_wf};
use crate::request::{
    decode_add_collection, decode_add_link, decode_delete_one_input, decode_fetch_many_input,
    decode_fetch_one_input, decode_insert_many_input, decode_insert_one_input, decode_update_one_input,
    get_str, member_of, str_member, add_collection_ok, decode_add_link_spec, decode_insert_one,
    decode_insert_many, decode_update_one, decode_delete_one, decode_fetch_one, decode_fetch_many,
};
use crate::session::{Rows, Step, StepView, error, error_response, output, output_response};
use crate::update::{UpdatePlan, plan_update_one, update_one_error, update_links_view, update_plan_wf, update_step, update_step_spec};
use crate::values::member;

verus! {

/// The operation a session carries out, with its plan.
pub enum SessionKind {
    InsertOne(InsertPlan),
    InsertMany(InsertManyPlan),
    FetchOne(FetchOnePlan),
    FetchMany(FetchManyPlan),
    UpdateOne(UpdatePlan),
    DeleteOne(DeletePlan),
}

/// Whether a plan is one the planning functions produce.
pub open spec fn kind_wf(k: SessionKind) -> bool {
    match k {
        SessionKind::InsertOne(p) => plan_wf(p),
        SessionKind::InsertMany(p) => forall|i: int| 0 <= i < p.plans@.len() ==> plan_wf(#[trigger] p.plans@[i]),
        SessionKind::FetchOne(p) => crate::filters::filters_ok(filters_view(p.filters@), p.base@.fields),
        SessionKind::FetchMany(p) => fetch_many_plan_wf(p),
        SessionKind::UpdateOne(p) => update_plan_wf(p),
        SessionKind::DeleteOne(_) => true,
    }
}

/// What a session asks for after the given batches ran.
pub open spec fn session_step_spec(k: SessionKind, results: Seq<Seq<Seq<Seq<Json>>>>) -> StepView {
    match k {
        SessionKind::InsertOne(p) => insert_step_spec(p, results),
        SessionKind::InsertMany(p) => insert_many_step_spec(p, results),
        SessionKind::FetchOne(p) => fetch_one_step_spec(p, results),
        SessionKind::FetchMany(p) => fetch_many_step_spec(p, results),
        SessionKind::UpdateOne(p) => update_step_spec(p, results),
        SessionKind::DeleteOne(p) => delete_step_spec(p, results),
    }
}

/// An operation in progress: the caller runs the statements it asks for
/// and hands back all the batches of rows so far, until it answers.
pub struct Session {
    kind: SessionKind,
}

impl Session {
    /// The operation and its plan.
    pub closed spec fn kind(&self) -> SessionKind {
        self.kind
    }

    #[verifier::type_invariant]
    closed spec fn inv(&self) -> bool {
        kind_wf(self.kind)
    }

    /// What the operation asks for next, given the rows of the batches run
    /// so far, in order.
    pub fn step(&self, results: &Vec<Vec<Rows>>) -> (r: Step)
        ensures
            r@ == session_step_spec(self.kind(), results_view(results@)),
    {
        proof {
            use_type_invariant(self);
        }
        match &self.kind {
            SessionKind::InsertOne(p) => insert_step(p, results),
            SessionKind::InsertMany(p) => insert_many_step(p, results),
            SessionKind::FetchOne(p) => fetch_one_step(p, results),
            SessionKind::FetchMany(p) => fetch_many_step(p, results),
            SessionKind::UpdateOne(p) => update_step(p, results),
            SessionKind::DeleteOne(p) => delete_step(p, results),
        }
    }
}

/// What the client does with a request.
pub enum Begin {
    /// Answer at once.
    Answer(JsonValue),
    /// Run this migration, then answer.
    Migrate(String, JsonValue),
    /// Carry out the operation.
    Session(Session),
}

/// The client: the registry of collections and links.
pub struct Client {
    registry: Registry,
}

/// The name of the operation of a request, where the request is an object
/// with a string `op` and then a `body`, and nothing else.
pub open spec fn request_op(req: Json) -> Option<Seq<char>> {
    match (str_member(req, "op"@), member(req, "body"@)) {
        _ if !crate::request::has_keys(req, seq!["op"@, "body"@]) => None,
        (Some(op), Some(_)) => Some(op),
        _ => None,
    }
}

/// `r` answers at once with `a`.
pub open spec fn answers(r: Begin, a: Json) -> bool {
    r matches Begin::Answer(x) && x@ == a
}

/// `r` answers with the error of that name.
pub open spec fn refuses(r: Begin, name: Seq<char>) -> bool {
    answers(r, error_response(name))
}

/// `r` hands back the migration `sql`, to be answered with a `null` output.
pub open spec fn migrates(r: Begin, sql: Seq<char>) -> bool {
    r matches Begin::Migrate(m, a) && m@ == sql && a@ == output_response(Json::Null)
}

/// What declaring a collection with `body` does to the registry `before`:
/// `after` is the registry afterwards, `r` the client's reply.
pub open spec fn add_collection_post(before: RegistryView, after: RegistryView, body: Json, r: Begin) -> bool {
    if !add_collection_ok(body) {
        after == before && refuses(r, "invalid_body"@)
    } else {
        exists|input: crate::schema::AddCollectionInput|
            {
                &&& Some(input.name@) == str_member(body, "name"@)
                &&& crate::request::collection_input_of(body, input)
                &&& #[trigger] add_collection_outcome(before, input).0 == after
                &&& match add_collection_outcome(before, input).1 {
                    Ok(sql) => migrates(r, sql),
                    Err(e) => refuses(r, e.spec_name()),
                }
            }
    }
}

/// What declaring a link with `body` does to the registry `before`.
pub open spec fn add_link_post(before: RegistryView, after: RegistryView, body: Json, r: Begin) -> bool {
    match decode_add_link_spec(body) {
        None => after == before && refuses(r, "invalid_body"@),
        Some(l) => exists|input: crate::registry::AddLinkInput|
            {
                &&& crate::request::add_link_view(input) == l
                &&& #[trigger] add_link_outcome(before, input).0 == after
                &&& match add_link_outcome(before, input).1 {
                    Ok(sql) => migrates(r, sql),
                    Err(e) => refuses(r, e.spec_name()),
                }
            },
    }
}

/// The reply to `insert_one` with `body` under the registry `reg`.
pub open spec fn insert_one_post(reg: RegistryView, body: Json, r: Begin) -> bool {
    match decode_insert_one(body) {
        None => refuses(r, "invalid_body"@),
        Some(x) => match insert_one_error(reg, x.0, x.1, x.2) {
            Some(e) => refuses(r, e.spec_name()),
            None => r matches Begin::Session(s) && s.kind() matches SessionKind::InsertOne(p)
                && crate::insert::plan_matches(p, reg, x.0, x.1, x.2),
        },
    }
}

/// The reply to `insert_many` with `body` under the registry `reg`.
pub open spec fn insert_many_post(reg: RegistryView, body: Json, r: Begin) -> bool {
    match decode_insert_many(body) {
        None => refuses(r, "invalid_body"@),
        Some(x) => r matches Begin::Session(s) && s.kind() matches SessionKind::InsertMany(p)
            && crate::insert::insert_many_matches(p, reg, x.0, x.1),
    }
}

/// The reply to `fetch_one` with `body` under the registry `reg`.
pub open spec fn fetch_one_post(reg: RegistryView, body: Json, r: Begin) -> bool {
    match decode_fetch_one(body) {
        None => refuses(r, "invalid_body"@),
        Some(x) => match fetch_one_error(reg, x.0, x.2, x.3) {
            Some(e) => refuses(r, e.spec_name()),
            None => r matches Begin::Session(s) && s.kind() matches SessionKind::FetchOne(p) && {
                &&& p.base@ == crate::registry::collection_named(reg.collections, x.0)
                &&& Some(crate::fetch::fetch_links_view(p.links@)) == crate::fetch::resolve_links(reg, x.0, x.3)
                &&& filters_view(p.filters@) == x.2
                &&& p.id as int == x.1
            },
        },
    }
}

/// The reply to `fetch_many` with `body` under the registry `reg`.
pub open spec fn fetch_many_post(reg: RegistryView, body: Json, r: Begin) -> bool {
    match decode_fetch_many(body) {
        None => refuses(r, "invalid_body"@),
        Some(x) => match fetch_many_error(
            reg,
            x.0,
            x.1,
            x.2,
            x.3.2.map_values(|o: (Seq<char>, crate::fetch_many::Direction)| o.0),
            match x.3.1 {
                Some(f) => Some(f.1),
                None => None,
            },
        ) {
            Some(e) => refuses(r, e.spec_name()),
            None => r matches Begin::Session(s) && s.kind() matches SessionKind::FetchMany(p) && {
                &&& p.base@ == crate::registry::collection_named(reg.collections, x.0)
                &&& filters_view(p.filters@) == x.1
                &&& Some(crate::fetch::fetch_links_view(p.links@)) == crate::fetch::resolve_links(reg, x.0, x.2)
                &&& p.limit == crate::fetch_many::clamp_limit(x.3.0)
                &&& crate::fetch_many::orders_view(p.order@).map_values(|o: (Seq<char>, bool, int)| (o.0, o.1))
                    == x.3.2.map_values(
                    |o: (Seq<char>, crate::fetch_many::Direction)| (o.0, o.1 == crate::fetch_many::Direction::Desc),
                )
                &&& match (x.3.1, p.first) {
                    (Some(fi), Some(f)) => f.0 == fi.0 && crate::filters::binds_view(f.1@)
                        == crate::fetch_many::cursor_values(
                        p.base@.fields,
                        x.3.2.map_values(|o: (Seq<char>, crate::fetch_many::Direction)| o.0),
                        fi.1,
                    ),
                    (None, None) => true,
                    _ => false,
                }
            },
        },
    }
}

/// The reply to `update_one` with `body` under the registry `reg`.
pub open spec fn update_one_post(reg: RegistryView, body: Json, r: Begin) -> bool {
    match decode_update_one(body) {
        None => refuses(r, "invalid_body"@),
        Some(x) => match update_one_error(reg, x.0, x.2, x.3) {
            Some(e) => refuses(r, e.spec_name()),
            None => r matches Begin::Session(s) && s.kind() matches SessionKind::UpdateOne(p)
                && crate::update::update_plan_matches(p, reg, x.0, x.1, x.2, x.3),
        },
    }
}

/// The reply to `delete_one` with `body` under the registry `reg`.
pub open spec fn delete_one_post(reg: RegistryView, body: Json, r: Begin) -> bool {
    match decode_delete_one(body) {
        None => refuses(r, "invalid_body"@),
        Some(x) => match delete_one_error(reg, x.0, x.2) {
            Some(e) => refuses(r, e.spec_name()),
            None => r matches Begin::Session(s) && s.kind() matches SessionKind::DeleteOne(p) && {
                &&& p.base@ == crate::registry::collection_named(reg.collections, x.0)
                &&& p.id as int == x.1
                &&& Some(crate::fetch::fetch_links_view(p.links@)) == crate::delete::resolve_delete_links(reg, x.0, x.2)
            },
        },
    }
}

/// What a request does: `before` and `after` are the registry before and
/// after it, `r` the client's reply.
pub open spec fn exec_post(before: RegistryView, after: RegistryView, req: Json, r: Begin) -> bool {
    match request_op(req) {
        None => after == before && refuses(r, "invalid_input"@),
        Some(op) => {
            let body = member(req, "body"@).unwrap();
            if op == "add_collection"@ {
                add_collection_post(before, after, body, r)
            } else if op == "add_link"@ {
                add_link_post(before, after, body, r)
            } else {
                &&& after == before
                &&& if op == "insert_one"@ {
                    insert_one_post(before, body, r)
                } else if op == "insert_many"@ {
                    insert_many_post(before, body, r)
                } else if op == "fetch_one"@ {
                    fetch_one_post(before, body, r)
                } else if op == "fetch_many"@ {
                    fetch_many_post(before, body, r)
                } else if op == "update_one"@ {
                    update_one_post(before, body, r)
                } else if op == "delete_one"@ {
                    delete_one_post(before, body, r)
                } else {
                    refuses(r, "unsupported_operation"@)
                }
            }
        },
    }
}

impl Client {
    /// The client's registry.
    pub closed spec fn registry_view(&self) -> RegistryView {
        self.registry@
    }

    /// The client's invariant: its registry is well formed.
    pub open spec fn wf(&self) -> bool {
        registry_wf(self.registry_view())
    }

    #[verifier::type_invariant]
    closed spec fn inv(&self) -> bool {
        registry_wf(self.registry@)
    }

    /// A client with nothing declared.
    pub fn new() -> (r: Client)
        ensures
            r.wf(),
            r.registry_view().collections.len() == 0,
            r.registry_view().optional_to_many.len() == 0,
            r.registry_view().many_to_many.len() == 0,
            r.registry_view().timestamped.len() == 0,
            r.registry_view().migration.len() == 0,
    {
        Client { registry: Registry::new() }
    }

    /// The registry.
    pub fn registry(&self) -> (r: &Registry)
        ensures
            r@ == self.registry_view(),
    {
        proof {
            use_type_invariant(&*self);
        }
        &self.registry
    }

    /// Takes a request. Malformed requests are answered with
    /// `invalid_input`, unknown operations with `unsupported_operation`,
    /// bodies that do not decode with `invalid_body`; refused operations
    /// with the error's name. Declarations change the registry as
    /// `add_collection_outcome` and `add_link_outcome` say and hand back
    /// their migration; every other operation leaves it unchanged and
    /// starts a session.
    pub fn exec(&mut self, req: &JsonValue) -> (r: Begin)
        ensures
            final(self).wf(),
            exec_post(old(self).registry_view(), final(self).registry_view(), req@, r),
    {
        proof {
            use_type_invariant(&*self);
        }
        if !crate::request::keys2(req, "op", "body") {
            return Begin::Answer(error("invalid_input"));
        }
        let op = match get_str(req, "op") {
            Some(op) => op,
            None => return Begin::Answer(error("invalid_input")),
        };
        let body = match member_of(req, "body") {
            Some(b) => b,
            None => return Begin::Answer(error("invalid_input")),
        };
        let o = op.as_str();
        if crate::text::chars_eq_str(&crate::text::chars_of(o), "add_collection") {
            self.add_collection(body)
        } else if crate::text::chars_eq_str(&crate::text::chars_of(o), "add_link") {
            self.add_link(body)
        } else if crate::text::chars_eq_str(&crate::text::chars_of(o), "insert_one") {
            self.insert_one(body)
        } else if crate::text::chars_eq_str(&crate::text::chars_of(o), "insert_many") {
            self.insert_many(body)
        } else if crate::text::chars_eq_str(&crate::text::chars_of(o), "fetch_one") {
            self.fetch_one(body)
        } else if crate::text::chars_eq_str(&crate::text::chars_of(o), "fetch_many") {
            self.fetch_many(body)
        } else if crate::text::chars_eq_str(&crate::text::chars_of(o), "update_one") {
            self.update_one(body)
        } else if crate::text::chars_eq_str(&crate::text::chars_of(o), "delete_one") {
            self.delete_one(body)
        } else {
            Begin::Answer(error("unsupported_operation"))
        }
    }

    /// Takes a request given as JSON text: text that does not read as one
    /// JSON value is answered with `invalid_input` and changes nothing;
    /// otherwise the value is taken as `exec` takes it.
    pub fn exec_text(&mut self, text: &str) -> (r: Begin)
        ensures
            final(self).wf(),
            match crate::json_text::parse_text(text@) {
                Some(req) => exec_post(old(self).registry_view(), final(self).registry_view(), req, r),
                None => final(self).registry_view() == old(self).registry_view() && refuses(r, "invalid_input"@),
            },
    {
        proof {
            use_type_invariant(&*self);
        }
        match crate::json_text::parse_json(text) {
            Some(req) => self.exec(&req),
            None => Begin::Answer(error("invalid_input")),
        }
    }

    /// Declares a collection: `invalid_body` where the body does not
    /// decode; otherwise as `add_collection_outcome` says, handing back the
    /// migration and a `null` output, or answering with the error's name.
    pub fn add_collection(&mut self, body: &JsonValue) -> (r: Begin)
        ensures
            final(self).wf(),
            add_collection_post(old(self).registry_view(), final(self).registry_view(), body@, r),
    {
        proof {
            use_type_invariant(&*self);
        }
        let input = match decode_add_collection(body) {
            Some(i) => i,
            None => return Begin::Answer(error("invalid_body")),
        };
        let mut reg = Registry::new();
        std::mem::swap(&mut reg, &mut self.registry);
        let res = reg.add_collection(&input);
        self.registry = reg;
        proof {
            assert(add_collection_outcome(old(self).registry_view(), input).0 == self.registry_view());
        }
        match res {
            Ok(sql) => Begin::Migrate(sql, output(JsonValue::Null)),
            Err(e) => Begin::Answer(error(e.name())),
        }
    }

    /// Declares a link: `invalid_body` where the body does not decode;
    /// otherwise as `add_link_outcome` says.
    pub fn add_link(&mut self, body: &JsonValue) -> (r: Begin)
        ensures
            final(self).wf(),
            add_link_post(old(self).registry_view(), final(self).registry_view(), body@, r),
    {
        proof {
            use_type_invariant(&*self);
        }
        let input = match decode_add_link(body) {
            Some(i) => i,
            None => return Begin::Answer(error("invalid_body")),
        };
        let mut reg = Registry::new();
        std::mem::swap(&mut reg, &mut self.registry);
        let res = reg.add_link(&input);
        self.registry = reg;
        proof {
            assert(add_link_outcome(old(self).registry_view(), input).0 == self.registry_view());
        }
        match res {
            Ok(sql) => Begin::Migrate(sql, output(JsonValue::Null)),
            Err(e) => Begin::Answer(error(e.name())),
        }
    }

    /// Starts inserting a row: `invalid_body` where the body does not
    /// decode; the error's name where `insert_one_error` refuses it;
    /// otherwise a session of the plan of that request.
    pub fn insert_one(&self, body: &JsonValue) -> (r: Begin)
        ensures
            insert_one_post(self.registry_view(), body@, r),
    {
        proof {
            use_type_invariant(&*self);
        }
        let input = match decode_insert_one_input(body) {
            Some(i) => i,
            None => return Begin::Answer(error("invalid_body")),
        };
        match plan_insert_one(&self.registry, &input) {
            Ok(p) => {
                proof {
                    crate::insert::lemma_plan_matches_wf(p, self.registry_view(), input.base@, input.data@, insert_links_view(input.links@));
                }
                Begin::Session(Session { kind: SessionKind::InsertOne(p) })
            },
            Err(e) => Begin::Answer(error(e.name())),
        }
    }

    /// Starts inserting several rows: `invalid_body` where the body does
    /// not decode; otherwise a session of the plan of that request.
    pub fn insert_many(&self, body: &JsonValue) -> (r: Begin)
        ensures
            insert_many_post(self.registry_view(), body@, r),
    {
        proof {
            use_type_invariant(&*self);
        }
        let input = match decode_insert_many_input(body) {
            Some(i) => i,
            None => return Begin::Answer(error("invalid_body")),
        };
        let p = plan_insert_many(&self.registry, &input);
        proof {
            let its = crate::insert::items_view(input.items@);
            if its.len() > 0 && crate::registry::has_collection(self.registry_view().collections, input.base@) {
                assert forall|i: int| 0 <= i < p.plans@.len() implies plan_wf(#[trigger] p.plans@[i]) by {
                }
            }
        }
        Begin::Session(Session { kind: SessionKind::InsertMany(p) })
    }

    /// Starts reading a row: `invalid_body` where the body does not decode;
    /// the error's name where `fetch_one_error` refuses it; otherwise a
    /// session reading row `id`.
    pub fn fetch_one(&self, body: &JsonValue) -> (r: Begin)
        ensures
            fetch_one_post(self.registry_view(), body@, r),
    {
        proof {
            use_type_invariant(&*self);
        }
        let input = match decode_fetch_one_input(body) {
            Some(i) => i,
            None => return Begin::Answer(error("invalid_body")),
        };
        match plan_fetch_one(&self.registry, input) {
            Ok(p) => Begin::Session(Session { kind: SessionKind::FetchOne(p) }),
            Err(e) => Begin::Answer(error(e.name())),
        }
    }

    /// Starts reading a page: `invalid_body` where the body does not
    /// decode; the error's name where `fetch_many_error` refuses it;
    /// otherwise a session reading the page.
    pub fn fetch_many(&self, body: &JsonValue) -> (r: Begin)
        ensures
            fetch_many_post(self.registry_view(), body@, r),
    {
        proof {
            use_type_invariant(&*self);
        }
        let input = match decode_fetch_many_input(body) {
            Some(i) => i,
            None => return Begin::Answer(error("invalid_body")),
        };
        proof {
            assert(order_names(input.pagination.order_by@) =~= crate::request::pagination_view(input.pagination).2.map_values(
                |o: (Seq<char>, crate::fetch_many::Direction)| o.0,
            ));
            assert(crate::fetch_many::resolve_order(Seq::empty(), input.pagination.order_by@)
                =~= crate::request::pagination_view(input.pagination).2.map_values(
                |o: (Seq<char>, crate::fetch_many::Direction)| (o.0, o.1 == crate::fetch_many::Direction::Desc),
            ));
        }
        match plan_fetch_many(&self.registry, input) {
            Ok(p) => Begin::Session(Session { kind: SessionKind::FetchMany(p) }),
            Err(e) => Begin::Answer(error(e.name())),
        }
    }

    /// Starts updating a row: `invalid_body` where the body does not
    /// decode; the error's name where `update_one_error` refuses it;
    /// otherwise a session of the plan of that request.
    pub fn update_one(&self, body: &JsonValue) -> (r: Begin)
        ensures
            update_one_post(self.registry_view(), body@, r),
    {
        proof {
            use_type_invariant(&*self);
        }
        let input = match decode_update_one_input(body) {
            Some(i) => i,
            None => return Begin::Answer(error("invalid_body")),
        };
        match plan_update_one(&self.registry, &input) {
            Ok(p) => Begin::Session(Session { kind: SessionKind::UpdateOne(p) }),
            Err(e) => Begin::Answer(error(e.name())),
        }
    }

    /// Starts deleting a row: `invalid_body` where the body does not
    /// decode; the error's name where `delete_one_error` refuses it;
    /// otherwise a session deleting row `id`.
    pub fn delete_one(&self, body: &JsonValue) -> (r: Begin)
        ensures
            delete_one_post(self.registry_view(), body@, r),
    {
        proof {
            use_type_invariant(&*self);
        }
        let input = match decode_delete_one_input(body) {
            Some(i) => i,
            None => return Begin::Answer(error("invalid_body")),
        };
        match plan_delete_one(&self.registry, &input) {
            Ok(p) => Begin::Session(Session { kind: SessionKind::DeleteOne(p) }),
            Err(e) => Begin::Answer(error(e.name())),
        }
    }
}

/// A reply of the client: an object with one member, `output` with the
/// result, or `error` with the error's name.
pub open spec fn is_response(j: Json) -> bool {
    j matches Json::Object(es) && es.len() == 1 && (es[0].0 == "output"@ || (es[0].0 == "error"@
        && es[0].1 is Str))
}

/// Every reply of the client is `{"output": ...}` or `{"error": name}`:
/// whether it answers a request at once, after a migration, or at the end
/// of a session, whatever rows the session was handed.
pub proof fn every_reply_is_output_or_error(
    before: RegistryView,
    after: RegistryView,
    req: Json,
    r: Begin,
    k: SessionKind,
    results: Seq<Seq<Seq<Seq<Json>>>>,
)
    ensures
        exec_post(before, after, req, r) ==> match r {
            Begin::Answer(a) => is_response(a@),
            Begin::Migrate(_, a) => is_response(a@),
            Begin::Session(_) => true,
        },
        session_step_spec(k, results) matches StepView::Done(j) ==> is_response(j),
{
    reveal_strlit("output");
    reveal_strlit("error");
}


} // verus!
