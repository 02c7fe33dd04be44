//! A small language for stating relations and asking for relationships.
//!
//! Each line of a script states one relation:
//!
//! ```text
//! {NAME} {M|F} {PARENT|CHILD|RP|SIBLING} {NAME} {M|F}
//! ```
//!
//! A line that begins with `:QUERY` ends the statements. Each line after it
//! asks what one person is to another:
//!
//! ```text
//! {NAME} TO {NAME}
//! ```
//!
//! A name stands for the same person throughout one script. A person is
//! added to the graph where its name occurs first, with the sex given
//! there.
use crate::graph::KinGraph;
use crate::links::relation_added;
use crate::person::{Kind, KinError, Link, Person, Sex};
use crate::relate::relationships;
use crate::script::{line_view, read_script, script_of, script_view, string_of};
use crate::states::{State, MAX_RANK};
use vstd::prelude::*;
use vstd::string::*;

verus! {

/// Why a script was not carried out to its end.
#[derive(Clone, Copy, PartialEq, Eq, Debug, Structural)]
pub enum DslError {
    /// A second line begins with `:QUERY`.
    InvalidDsl,
    /// A line has fewer words than its form asks for.
    Malformed,
    /// The sex of a person is neither `M` nor `F`.
    InvalidSex,
    /// The relation is none of `PARENT`, `CHILD`, `RP` and `SIBLING`.
    InvalidRelationship,
    /// A query names a person that no statement has named.
    PersonNotFound,
    /// The graph refused a relation.
    Relation(KinError),
}

/// Whether a line begins with `:QUERY`.
pub open spec fn is_marker(line: Seq<Seq<char>>) -> bool {
    line.len() > 0 && ":QUERY"@.is_prefix_of(line[0])
}

/// The number of lines before the first that begins with `:QUERY`.
pub open spec fn first_marker(script: Seq<Seq<Seq<char>>>) -> nat
    decreases script.len(),
{
    if script.len() == 0 || is_marker(script[0]) {
        0
    } else {
        1 + first_marker(script.skip(1))
    }
}

/// The statements of a script: the lines before the first `:QUERY`.
pub open spec fn statements_of(script: Seq<Seq<Seq<char>>>) -> Seq<Seq<Seq<char>>> {
    script.take(first_marker(script) as int)
}

/// The queries of a script: the lines after the first `:QUERY`.
pub open spec fn queries_of(script: Seq<Seq<Seq<char>>>) -> Seq<Seq<Seq<char>>> {
    if first_marker(script) < script.len() {
        script.skip(first_marker(script) as int + 1)
    } else {
        Seq::empty()
    }
}

/// Whether one of the lines begins with `:QUERY`.
pub open spec fn has_marker(lines: Seq<Seq<Seq<char>>>) -> bool {
    exists|i: int| 0 <= i < lines.len() && is_marker(#[trigger] lines[i])
}

/// The sex that a word stands for.
pub open spec fn sex_of(word: Seq<char>) -> Option<Sex> {
    if word == "M"@ {
        Some(Sex::Male)
    } else if word == "F"@ {
        Some(Sex::Female)
    } else {
        None
    }
}

/// The kind of relation that a word stands for.
pub open spec fn kind_of(word: Seq<char>) -> Option<Kind> {
    if word == "PARENT"@ {
        Some(Kind::Parent)
    } else if word == "CHILD"@ {
        Some(Kind::Child)
    } else if word == "RP"@ {
        Some(Kind::RP)
    } else if word == "SIBLING"@ {
        Some(Kind::Sibling)
    } else {
        None
    }
}

/// The first place of `name` among the persons of a script.
pub open spec fn find_name(table: Seq<(Seq<char>, Sex)>, name: Seq<char>) -> Option<int>
    decreases table.len(),
{
    if table.len() == 0 {
        None
    } else {
        match find_name(table.drop_last(), name) {
            Some(i) => Some(i),
            None => if table.last().0 == name {
                Some(table.len() - 1)
            } else {
                None
            },
        }
    }
}

/// The persons of a script after `name` occurred, and the place of `name`
/// among them. A new name goes to the end, with the sex given.
pub open spec fn entered(table: Seq<(Seq<char>, Sex)>, name: Seq<char>, sex: Sex) -> (
    Seq<(Seq<char>, Sex)>,
    int,
) {
    match find_name(table, name) {
        Some(i) => (table, i),
        None => (table.push((name, sex)), table.len() as int),
    }
}

/// How far a script has come: the persons that it has named, in the order
/// in which they were added to the graph, the links of the graph, and the
/// error that ended it.
pub struct Progress {
    pub table: Seq<(Seq<char>, Sex)>,
    pub links: Seq<Link>,
    pub error: Option<DslError>,
}

/// What one statement does. The persons of the script stand in the graph
/// from position `base` on. The first person is entered once its sex is
/// read, the second once the relation and its sex are read, and then the
/// relation is added.
pub open spec fn stated(
    base: nat,
    table: Seq<(Seq<char>, Sex)>,
    links: Seq<Link>,
    words: Seq<Seq<char>>,
) -> Progress {
    if words.len() < 2 {
        Progress { table, links, error: Some(DslError::Malformed) }
    } else {
        match sex_of(words[1]) {
            None => Progress { table, links, error: Some(DslError::InvalidSex) },
            Some(sex) => {
                let (table, a) = entered(table, words[0], sex);
                if words.len() < 3 {
                    Progress { table, links, error: Some(DslError::Malformed) }
                } else {
                    match kind_of(words[2]) {
                        None => Progress {
                            table,
                            links,
                            error: Some(DslError::InvalidRelationship),
                        },
                        Some(kind) => if words.len() < 5 {
                            Progress { table, links, error: Some(DslError::Malformed) }
                        } else {
                            match sex_of(words[4]) {
                                None => Progress {
                                    table,
                                    links,
                                    error: Some(DslError::InvalidSex),
                                },
                                Some(sex2) => {
                                    let (table, b) = entered(table, words[3], sex2);
                                    match relation_added(
                                        links,
                                        (base + a) as usize,
                                        (base + b) as usize,
                                        kind,
                                    ) {
                                        Ok(after) => Progress { table, links: after, error: None },
                                        Err(e) => Progress {
                                            table,
                                            links,
                                            error: Some(DslError::Relation(e)),
                                        },
                                    }
                                },
                            }
                        },
                    }
                }
            },
        }
    }
}

/// What the statements do, one after the other, up to the first error.
pub open spec fn stated_all(base: nat, links: Seq<Link>, statements: Seq<Seq<Seq<char>>>) -> Progress
    decreases statements.len(),
{
    if statements.len() == 0 {
        Progress { table: Seq::empty(), links, error: None }
    } else {
        let before = stated_all(base, links, statements.drop_last());
        if before.error.is_some() {
            before
        } else {
            stated(base, before.table, before.links, statements.last())
        }
    }
}

/// The answer to one query: what the first person named is to the second.
pub open spec fn asked(kg: &KinGraph, base: nat, table: Seq<(Seq<char>, Sex)>, words: Seq<Seq<char>>) -> Result<
    Seq<State>,
    DslError,
> {
    if words.len() < 3 {
        Err(DslError::Malformed)
    } else {
        match (find_name(table, words[0]), find_name(table, words[2])) {
            (Some(a), Some(b)) => Ok(relationships(kg, (base + a) as usize, (base + b) as usize)),
            _ => Err(DslError::PersonNotFound),
        }
    }
}

/// The answers to the queries, one after the other, or the first error.
pub open spec fn asked_all(
    kg: &KinGraph,
    base: nat,
    table: Seq<(Seq<char>, Sex)>,
    queries: Seq<Seq<Seq<char>>>,
) -> Result<Seq<State>, DslError>
    decreases queries.len(),
{
    if queries.len() == 0 {
        Ok(Seq::empty())
    } else {
        match asked_all(kg, base, table, queries.drop_last()) {
            Err(e) => Err(e),
            Ok(before) => match asked(kg, base, table, queries.last()) {
                Err(e) => Err(e),
                Ok(answer) => Ok(before + answer),
            },
        }
    }
}

/// The index after `count` persons were added from position `base` on,
/// each with its position as its id.
pub open spec fn index_grown(index: Map<usize, usize>, base: nat, count: nat) -> Map<usize, usize>
    decreases count,
{
    if count == 0 {
        index
    } else {
        index_grown(index, base, (count - 1) as nat).insert(
            (base + count - 1) as usize,
            (base + count - 1) as usize,
        )
    }
}

/// Whether `after` is `before` with the persons of `table` added: each at
/// the next position, with its position as its id, and with the name and
/// the sex of the table.
pub open spec fn grown(before: &KinGraph, after: &KinGraph, table: Seq<(Seq<char>, Sex)>) -> bool {
    let base = before.persons().len();
    &&& after.persons().len() == base + table.len()
    &&& after.persons().take(base as int) == before.persons()
    &&& forall|i: int|
        0 <= i < table.len() ==> {
            let p = #[trigger] after.persons()[base + i];
            &&& p.spec_id() == base + i
            &&& p.spec_name() == table[i].0
            &&& p.spec_sex() == table[i].1
            &&& !p.spec_shadow()
        }
    &&& after.index() == index_grown(before.index(), base, table.len())
}

/// What the outcome of a script's statements says of the graph: without a
/// second `:QUERY` the persons named were added and the relations up to the
/// first error; with one the graph stayed as it was.
pub open spec fn dsl_parsed(
    before: &KinGraph,
    after: &KinGraph,
    script: Seq<Seq<Seq<char>>>,
    res: Result<(), DslError>,
) -> bool {
    if has_marker(queries_of(script)) {
        &&& res == Err::<(), DslError>(DslError::InvalidDsl)
        &&& after.persons() == before.persons()
        &&& after.links() == before.links()
        &&& after.index() == before.index()
    } else {
        let done = stated_all(before.persons().len(), before.links(), statements_of(script));
        &&& grown(before, after, done.table)
        &&& after.links() == done.links
        &&& res == match done.error {
            Some(e) => Err::<(), DslError>(e),
            None => Ok::<(), DslError>(()),
        }
    }
}

/// What the outcome of a script says of the graph and of the answers: the
/// statements were carried out, and if they ended without an error, the
/// queries were answered on the graph that they left.
pub open spec fn dsl_answered(
    before: &KinGraph,
    after: &KinGraph,
    script: Seq<Seq<Seq<char>>>,
    res: Result<Seq<State>, DslError>,
) -> bool {
    let done = stated_all(before.persons().len(), before.links(), statements_of(script));
    let parsed = if has_marker(queries_of(script)) {
        Err::<(), DslError>(DslError::InvalidDsl)
    } else {
        match done.error {
            Some(e) => Err::<(), DslError>(e),
            None => Ok::<(), DslError>(()),
        }
    };
    &&& dsl_parsed(before, after, script, parsed)
    &&& res == match parsed {
        Err(e) => Err::<Seq<State>, DslError>(e),
        Ok(()) => asked_all(after, before.persons().len(), done.table, queries_of(script)),
    }
}

/// Adds the persons and relations that a script states to the graph.
/// Queries are not answered, but a second `:QUERY` is an error all the
/// same.
pub fn parse_relations_from_dsl(string: &str, kg: &mut KinGraph) -> (res: Result<(), DslError>)
    requires
        old(kg).wf(),
    ensures
        final(kg).wf(),
        dsl_parsed(old(kg), final(kg), script_of(string@), res),
{
    let script = read_script(string);
    match run_statements(kg, &script) {
        Ok(_) => Ok(()),
        Err(e) => Err(e),
    }
}

/// Carries out a script: adds the persons and relations that it states to
/// the graph, and answers its queries, one after the other. The text is
/// short enough for the counters of the states: with every person that it
/// can name, the graph has no more than `MAX_RANK + 2` persons.
pub fn query_kin(string: &str, kg: &mut KinGraph) -> (res: Result<Vec<State>, DslError>)
    requires
        old(kg).wf(),
        old(kg).persons().len() + 2 * (string@.len() + 1) <= MAX_RANK + 2,
    ensures
        final(kg).wf(),
        dsl_answered(
            old(kg),
            final(kg),
            script_of(string@),
            match res {
                Ok(v) => Ok::<Seq<State>, DslError>(v@),
                Err(e) => Err::<Seq<State>, DslError>(e),
            },
        ),
{
    let script = read_script(string);
    proof {
        crate::script::lemma_script_len(string@);
    }
    let ghost view = script_view(script);
    let ghost base = kg.persons().len();
    let (table, m) = match run_statements(kg, &script) {
        Ok(found) => found,
        Err(e) => {
            return Err(e);
        },
    };
    let mut answers: Vec<State> = Vec::new();
    if m >= script.len() {
        return Ok(answers);
    }
    let ghost queries = view.skip(m + 1);
    let mut i: usize = m + 1;
    assert(queries.take(0) =~= Seq::<Seq<Seq<char>>>::empty());
    while i < script.len()
        invariant
            m + 1 <= i <= script.len(),
            view == script_view(script),
            queries == view.skip(m + 1),
            kg.wf(),
            seated(kg, base, table@),
            kg.persons().len() <= MAX_RANK + 2,
            base == old(kg).persons().len(),
            view == script_of(string@),
            m == first_marker(view),
            dsl_parsed(old(kg), kg, view, Ok::<(), DslError>(())),
            table_view(table@) == stated_all(base, old(kg).links(), statements_of(view)).table,
            asked_all(kg, base, table_view(table@), queries.take(i - (m + 1))) == Ok::<
                Seq<State>,
                DslError,
            >(answers@),
        decreases script.len() - i,
    {
        proof {
            assert(queries.take(i - m).drop_last() =~= queries.take(i - (m + 1)));
            assert(queries.take(i - m).last() == line_view(script[i as int]));
        }
        let mut answer = match kg.ask(Ghost(base), &table, &script[i]) {
            Ok(answer) => answer,
            Err(e) => {
                proof {
                    lemma_query_error_ends(
                        kg,
                        base,
                        table_view(table@),
                        queries,
                        i - m,
                        queries.len() as int,
                    );
                    assert(queries.take(queries.len() as int) =~= queries);
                }
                return Err(e);
            },
        };
        answers.append(&mut answer);
        i = i + 1;
    }
    assert(queries.take(script.len() - (m + 1)) =~= queries);
    Ok(answers)
}

/// The persons of a script as the interpreter holds them.
pub open spec fn table_view(table: Seq<(Vec<char>, Person)>) -> Seq<(Seq<char>, Sex)> {
    table.map_values(|e: (Vec<char>, Person)| (e.0@, e.1.spec_sex()))
}

/// Whether the interpreter's table and the graph agree: the persons of the
/// table are the persons of the graph from `base` on, and the index leads
/// to them.
pub open spec fn seated(kg: &KinGraph, base: nat, table: Seq<(Vec<char>, Person)>) -> bool {
    &&& kg.persons().len() == base + table.len()
    &&& forall|i: int|
        0 <= i < table.len() ==> {
            let p = (#[trigger] table[i]).1;
            &&& p.spec_id() == base + i
            &&& p.spec_name() == table[i].0@
            &&& !p.spec_shadow()
            &&& kg.persons()[base + i] == p
            &&& kg.index().contains_key(p.spec_id())
            &&& kg.index()[p.spec_id()] == base + i
        }
}

/// Carries out the statements of `script`.
fn run_statements(kg: &mut KinGraph, script: &Vec<Vec<Vec<char>>>) -> (res: Result<
    (Vec<(Vec<char>, Person)>, usize),
    DslError,
>)
    requires
        old(kg).wf(),
    ensures
        final(kg).wf(),
        dsl_parsed(
            old(kg),
            final(kg),
            script_view(*script),
            match res {
                Ok(_) => Ok::<(), DslError>(()),
                Err(e) => Err::<(), DslError>(e),
            },
        ),
        res matches Ok((table, m)) ==> {
            &&& seated(final(kg), old(kg).persons().len(), table@)
            &&& table_view(table@) == stated_all(
                old(kg).persons().len(),
                old(kg).links(),
                statements_of(script_view(*script)),
            ).table
            &&& m == first_marker(script_view(*script))
            &&& table.len() <= 2 * script.len()
        },
{
    let m: usize = find_marker(script);
    let ghost view = script_view(*script);
    if m < script.len() && marker_after(script, m + 1) {
        return Err(DslError::InvalidDsl);
    }
    assert(!has_marker(queries_of(view)));
    let mut table: Vec<(Vec<char>, Person)> = Vec::new();
    let ghost base = kg.persons().len();
    let res = kg.state_all(Ghost(base), &mut table, script, m);
    proof {
        lemma_seated_grown(old(kg), kg, table@);
    }
    match res {
        Some(e) => Err(e),
        None => Ok((table, m)),
    }
}

impl KinGraph {
    /// The person that `name` stands for: the one of the table, or a new
    /// one.
    fn enter(
        &mut self,
        Ghost(base): Ghost<nat>,
        table: &mut Vec<(Vec<char>, Person)>,
        name: &Vec<char>,
        sex: Sex,
    ) -> (at: usize)
        requires
            old(self).wf(),
            seated(old(self), base, old(table)@),
        ensures
            final(self).wf(),
            seated(final(self), base, final(table)@),
            final(self).links() == old(self).links(),
            final(self).persons().take(base as int) == old(self).persons().take(base as int),
            final(self).index() == index_grown(
                old(self).index(),
                (base + old(table).len()) as nat,
                (final(table).len() - old(table).len()) as nat,
            ),
            (table_view(final(table)@), at as int) == entered(table_view(old(table)@), name@, sex),
            at < final(table).len(),
            old(table).len() <= final(table).len() <= old(table).len() + 1,
            old(table)@ == final(table)@.take(old(table).len() as int),
    {
        let ghost before = table_view(table@);
        match find(table, name) {
            Some(i) => {
                assert(table@.take(table.len() as int) =~= table@);
                i
            },
            None => {
                let copy = same_name(name);
                let p = self.np_with_name(sex, string_of(name));
                let at: usize = table.len();
                table.push((copy, p));
                proof {
                    assert(table_view(table@) =~= before.push((name@, sex)));
                    assert(table@.take(at as int) =~= old(table)@);
                    assert(self.persons().take(base as int) =~= old(self).persons().take(
                        base as int,
                    ));
                    assert forall|i: int| 0 <= i < table.len() implies {
                        let q = (#[trigger] table[i]).1;
                        &&& q.spec_id() == base + i
                        &&& q.spec_name() == table[i].0@
                        &&& !q.spec_shadow()
                        &&& self.persons()[base + i] == q
                        &&& self.index().contains_key(q.spec_id())
                        &&& self.index()[q.spec_id()] == base + i
                    } by {
                        if i < at {
                            assert(table[i] == old(table)[i]);
                        }
                    }
                    assert(index_grown(old(self).index(), (base + at) as nat, 0) == old(
                        self,
                    ).index());
                }
                at
            },
        }
    }

    /// Carries out one statement.
    fn state(
        &mut self,
        Ghost(base): Ghost<nat>,
        table: &mut Vec<(Vec<char>, Person)>,
        words: &Vec<Vec<char>>,
    ) -> (res: Option<DslError>)
        requires
            old(self).wf(),
            seated(old(self), base, old(table)@),
        ensures
            final(self).wf(),
            seated(final(self), base, final(table)@),
            final(self).persons().take(base as int) == old(self).persons().take(base as int),
            old(table).len() <= final(table).len() <= old(table).len() + 2,
            final(self).index() == index_grown(
                old(self).index(),
                (base + old(table).len()) as nat,
                (final(table).len() - old(table).len()) as nat,
            ),
            stated(base, table_view(old(table)@), old(self).links(), line_view(*words)) == (Progress {
                table: table_view(final(table)@),
                links: final(self).links(),
                error: res,
            }),
    {
        let ghost view = line_view(*words);
        assert(forall|i: int| 0 <= i < words.len() ==> view[i] == (#[trigger] words[i])@);
        proof {
            assert(index_grown(self.index(), (base + table.len()) as nat, 0) == self.index());
        }
        if words.len() < 2 {
            return Some(DslError::Malformed);
        }
        let sex = match read_sex(&words[1]) {
            Some(sex) => sex,
            None => {
                return Some(DslError::InvalidSex);
            },
        };
        let a: usize = self.enter(Ghost(base), table, &words[0], sex);
        let ghost middle = table.len();
        if words.len() < 3 {
            return Some(DslError::Malformed);
        }
        let kind = match read_kind(&words[2]) {
            Some(kind) => kind,
            None => {
                return Some(DslError::InvalidRelationship);
            },
        };
        if words.len() < 5 {
            return Some(DslError::Malformed);
        }
        let sex2 = match read_sex(&words[4]) {
            Some(sex) => sex,
            None => {
                return Some(DslError::InvalidSex);
            },
        };
        let ghost index_between = self.index();
        let b: usize = self.enter(Ghost(base), table, &words[3], sex2);
        proof {
            lemma_index_grown_twice(
                old(self).index(),
                (base + old(table).len()) as nat,
                (middle - old(table).len()) as nat,
                (table.len() - middle) as nat,
            );
            assert(table[a as int].1.spec_id() == base + a);
            assert(table[b as int].1.spec_id() == base + b);
        }
        match self.add_relation(&table[a].1, &table[b].1, kind) {
            Ok(()) => None,
            Err(e) => Some(DslError::Relation(e)),
        }
    }

    /// Carries out the first `count` lines of `script` as statements.
    fn state_all(
        &mut self,
        Ghost(base): Ghost<nat>,
        table: &mut Vec<(Vec<char>, Person)>,
        script: &Vec<Vec<Vec<char>>>,
        count: usize,
    ) -> (res: Option<DslError>)
        requires
            old(self).wf(),
            old(self).persons().len() == base,
            old(table).len() == 0,
            count <= script.len(),
        ensures
            final(self).wf(),
            seated(final(self), base, final(table)@),
            final(self).persons().take(base as int) == old(self).persons(),
            final(table).len() <= 2 * count,
            final(self).index() == index_grown(old(self).index(), base, final(table).len() as nat),
            stated_all(base, old(self).links(), script_view(*script).take(count as int)) == (Progress {
                table: table_view(final(table)@),
                links: final(self).links(),
                error: res,
            }),
    {
        let ghost view = script_view(*script);
        let mut i: usize = 0;
        proof {
            assert(view.take(0) =~= Seq::<Seq<Seq<char>>>::empty());
            assert(table_view(table@) =~= Seq::<(Seq<char>, Sex)>::empty());
            assert(self.persons().take(base as int) =~= self.persons());
        }
        while i < count
            invariant
                i <= count <= script.len(),
                view == script_view(*script),
                self.wf(),
                seated(self, base, table@),
                self.persons().take(base as int) == old(self).persons(),
                table.len() <= 2 * i,
                self.index() == index_grown(old(self).index(), base, table.len() as nat),
                stated_all(base, old(self).links(), view.take(i as int)) == (Progress {
                    table: table_view(table@),
                    links: self.links(),
                    error: None,
                }),
            decreases count - i,
        {
            let ghost seats = table.len();
            proof {
                assert(view.take(i + 1).drop_last() =~= view.take(i as int));
                assert(view.take(i + 1).last() == line_view(script[i as int]));
            }
            let res = self.state(Ghost(base), table, &script[i]);
            proof {
                lemma_index_grown_twice(
                    old(self).index(),
                    base,
                    seats as nat,
                    (table.len() - seats) as nat,
                );
            }
            match res {
                Some(e) => {
                    proof {
                        lemma_error_ends(base, old(self).links(), view, i + 1, count as int);
                    }
                    return Some(e);
                },
                None => {},
            }
            i = i + 1;
        }
        None
    }

    /// Answers one query.
    fn ask(
        &self,
        Ghost(base): Ghost<nat>,
        table: &Vec<(Vec<char>, Person)>,
        words: &Vec<Vec<char>>,
    ) -> (res: Result<Vec<State>, DslError>)
        requires
            self.wf(),
            seated(self, base, table@),
            self.persons().len() <= MAX_RANK + 2,
        ensures
            asked(self, base, table_view(table@), line_view(*words)) == match res {
                Ok(v) => Ok::<Seq<State>, DslError>(v@),
                Err(e) => Err::<Seq<State>, DslError>(e),
            },
    {
        let ghost view = line_view(*words);
        assert(forall|i: int| 0 <= i < words.len() ==> view[i] == (#[trigger] words[i])@);
        if words.len() < 3 {
            return Err(DslError::Malformed);
        }
        let a: usize = match find(table, &words[0]) {
            Some(a) => a,
            None => {
                return Err(DslError::PersonNotFound);
            },
        };
        let b: usize = match find(table, &words[2]) {
            Some(b) => b,
            None => {
                return Err(DslError::PersonNotFound);
            },
        };
        assert(table[a as int].1.spec_id() == base + a);
        assert(table[b as int].1.spec_id() == base + b);
        Ok(self.get_canonical_relationships(&table[a].1, &table[b].1))
    }
}

/// The number of lines before the first that begins with `:QUERY`.
fn find_marker(script: &Vec<Vec<Vec<char>>>) -> (m: usize)
    ensures
        m == first_marker(script_view(*script)),
        m <= script.len(),
{
    let ghost view = script_view(*script);
    let mut i: usize = 0;
    assert(view.skip(0) =~= view);
    while i < script.len()
        invariant
            i <= script.len(),
            view == script_view(*script),
            first_marker(view) == i + first_marker(view.skip(i as int)),
        decreases script.len() - i,
    {
        assert(view.skip(i as int)[0] == line_view(script[i as int]));
        assert(view.skip(i as int).skip(1) =~= view.skip(i + 1));
        if is_marker_line(&script[i]) {
            return i;
        }
        i = i + 1;
    }
    i
}

/// Whether a line from `from` on begins with `:QUERY`.
fn marker_after(script: &Vec<Vec<Vec<char>>>, from: usize) -> (res: bool)
    requires
        from <= script.len(),
    ensures
        res == has_marker(script_view(*script).skip(from as int)),
{
    let ghost rest = script_view(*script).skip(from as int);
    let mut i: usize = from;
    while i < script.len()
        invariant
            from <= i <= script.len(),
            rest == script_view(*script).skip(from as int),
            forall|j: int| 0 <= j < i - from ==> !is_marker(#[trigger] rest[j]),
        decreases script.len() - i,
    {
        assert(rest[i - from] == line_view(script[i as int]));
        if is_marker_line(&script[i]) {
            return true;
        }
        i = i + 1;
    }
    false
}

fn is_marker_line(line: &Vec<Vec<char>>) -> (res: bool)
    ensures
        res == is_marker(line_view(*line)),
{
    if line.len() == 0 {
        false
    } else {
        assert(line_view(*line)[0] == line[0]@);
        begins_with(&line[0], ":QUERY")
    }
}

fn read_sex(word: &Vec<char>) -> (res: Option<Sex>)
    ensures
        res == sex_of(word@),
{
    if same_text(word, "M") {
        Some(Sex::Male)
    } else if same_text(word, "F") {
        Some(Sex::Female)
    } else {
        None
    }
}

fn read_kind(word: &Vec<char>) -> (res: Option<Kind>)
    ensures
        res == kind_of(word@),
{
    if same_text(word, "PARENT") {
        Some(Kind::Parent)
    } else if same_text(word, "CHILD") {
        Some(Kind::Child)
    } else if same_text(word, "RP") {
        Some(Kind::RP)
    } else if same_text(word, "SIBLING") {
        Some(Kind::Sibling)
    } else {
        None
    }
}

/// The place of `name` in the table.
fn find(table: &Vec<(Vec<char>, Person)>, name: &Vec<char>) -> (res: Option<usize>)
    ensures
        match res {
            Some(i) => find_name(table_view(table@), name@) == Some(i as int) && i < table.len(),
            None => find_name(table_view(table@), name@).is_none(),
        },
{
    let mut i: usize = 0;
    let ghost view = table_view(table@);
    assert(view.take(0) =~= Seq::<(Seq<char>, Sex)>::empty());
    while i < table.len()
        invariant
            i <= table.len(),
            view == table_view(table@),
            find_name(view.take(i as int), name@).is_none(),
        decreases table.len() - i,
    {
        assert(view.take(i + 1).drop_last() =~= view.take(i as int));
        assert(view[i as int].0 == table[i as int].0@);
        if same_chars(&table[i].0, name) {
            proof {
                lemma_find_name_stays(view, name@, i + 1);
            }
            return Some(i);
        }
        i = i + 1;
    }
    assert(view.take(table.len() as int) =~= view);
    None
}

/// Whether `word` is `text`.
fn same_text(word: &Vec<char>, text: &str) -> (res: bool)
    ensures
        res == (word@ == text@),
{
    let n: usize = text.unicode_len();
    if word.len() != n {
        return false;
    }
    let hit = begins_with(word, text);
    assert(word@.subrange(0, n as int) =~= word@);
    hit
}

/// Whether `word` begins with `start`.
fn begins_with(word: &Vec<char>, start: &str) -> (res: bool)
    ensures
        res == start@.is_prefix_of(word@),
{
    let n: usize = start.unicode_len();
    if word.len() < n {
        return false;
    }
    let mut i: usize = 0;
    while i < n
        invariant
            i <= n,
            n == start@.len(),
            n <= word.len(),
            forall|j: int| 0 <= j < i ==> word[j] == start@[j],
        decreases n - i,
    {
        if word[i] != start.get_char(i) {
            assert(word@.subrange(0, n as int)[i as int] != start@[i as int]);
            return false;
        }
        i = i + 1;
    }
    assert(start@ =~= word@.subrange(0, n as int));
    true
}

fn same_chars(a: &Vec<char>, b: &Vec<char>) -> (res: bool)
    ensures
        res == (a@ == b@),
{
    if a.len() != b.len() {
        return false;
    }
    let mut i: usize = 0;
    while i < a.len()
        invariant
            i <= a.len(),
            a.len() == b.len(),
            forall|j: int| 0 <= j < i ==> a[j] == b[j],
        decreases a.len() - i,
    {
        if a[i] != b[i] {
            return false;
        }
        i = i + 1;
    }
    assert(a@ =~= b@);
    true
}

/// A copy of `name`.
fn same_name(name: &Vec<char>) -> (copy: Vec<char>)
    ensures
        copy@ == name@,
{
    let mut copy: Vec<char> = Vec::new();
    let mut i: usize = 0;
    while i < name.len()
        invariant
            i <= name.len(),
            copy@ == name@.take(i as int),
        decreases name.len() - i,
    {
        copy.push(name[i]);
        assert(name@.take(i + 1) =~= name@.take(i as int).push(name[i as int]));
        i = i + 1;
    }
    assert(name@.take(name.len() as int) =~= name@);
    copy
}

/// A name found among the first `upto` persons keeps its place.
proof fn lemma_find_name_stays(table: Seq<(Seq<char>, Sex)>, name: Seq<char>, upto: int)
    requires
        0 <= upto <= table.len(),
        find_name(table.take(upto), name).is_some(),
    ensures
        find_name(table, name) == find_name(table.take(upto), name),
    decreases table.len(),
{
    if upto < table.len() {
        assert(table.drop_last().take(upto) =~= table.take(upto));
        lemma_find_name_stays(table.drop_last(), name, upto);
    } else {
        assert(table.take(upto) =~= table);
    }
}

/// Growing an index in two steps is growing it in one.
proof fn lemma_index_grown_twice(index: Map<usize, usize>, base: nat, first: nat, second: nat)
    ensures
        index_grown(index_grown(index, base, first), base + first, second) == index_grown(
            index,
            base,
            first + second,
        ),
    decreases second,
{
    if second > 0 {
        lemma_index_grown_twice(index, base, first, (second - 1) as nat);
    }
}

/// After an error the statements that follow change nothing.
proof fn lemma_error_ends(
    base: nat,
    links: Seq<Link>,
    statements: Seq<Seq<Seq<char>>>,
    at: int,
    upto: int,
)
    requires
        0 <= at <= upto <= statements.len(),
        stated_all(base, links, statements.take(at)).error.is_some(),
    ensures
        stated_all(base, links, statements.take(upto)) == stated_all(base, links, statements.take(at)),
    decreases upto - at,
{
    if at < upto {
        lemma_error_ends(base, links, statements, at, upto - 1);
        assert(statements.take(upto).drop_last() =~= statements.take(upto - 1));
    }
}

/// What `index_grown` and `seated` say together is what `grown` says.
proof fn lemma_seated_grown(
    before: &KinGraph,
    after: &KinGraph,
    table: Seq<(Vec<char>, Person)>,
)
    requires
        seated(after, before.persons().len(), table),
        after.persons().take(before.persons().len() as int) == before.persons(),
        after.index() == index_grown(before.index(), before.persons().len(), table.len()),
    ensures
        grown(before, after, table_view(table)),
{
    let base = before.persons().len();
    assert forall|i: int| 0 <= i < table.len() implies {
        let p = #[trigger] after.persons()[base + i];
        &&& p.spec_id() == base + i
        &&& p.spec_name() == table_view(table)[i].0
        &&& p.spec_sex() == table_view(table)[i].1
        &&& !p.spec_shadow()
    } by {
        assert(table[i].1 == after.persons()[base + i]);
    }
}

/// After an error the queries that follow are not answered.
proof fn lemma_query_error_ends(
    kg: &KinGraph,
    base: nat,
    table: Seq<(Seq<char>, Sex)>,
    queries: Seq<Seq<Seq<char>>>,
    at: int,
    upto: int,
)
    requires
        0 <= at <= upto <= queries.len(),
        asked_all(kg, base, table, queries.take(at)).is_err(),
    ensures
        asked_all(kg, base, table, queries.take(upto)) == asked_all(kg, base, table, queries.take(at)),
    decreases upto - at,
{
    if at < upto {
        lemma_query_error_ends(kg, base, table, queries, at, upto - 1);
        assert(queries.take(upto).drop_last() =~= queries.take(upto - 1));
    } else {
        assert(queries.take(upto) =~= queries.take(at));
    }
}

} // verus!
