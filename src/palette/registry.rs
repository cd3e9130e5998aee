use vstd::prelude::*;

use crate::palette::fuzzy::{fuzzy_match_multi, index_view, multi_found, multi_result, opt_str_view};
use crate::palette::types::{
    category_label, opt_string_view, same_command, Command, CommandCategory, CommandSearchResult,
    CommandSource, CommandWithKeybinding, SearchOptions,
};
use crate::store::KeyedStore;
use crate::text::{chars_of, contains, contains_chars, join, str_eq};

verus! {

/// A command's `when` holds in `context`: the context mentions it, or it is "*".
pub open spec fn context_ok(when: Seq<char>, context: Seq<char>) -> bool {
    contains(context, when) || when == "*"@
}

/// Whether a command's `when` condition holds in the given context.
pub fn context_matches(when: &str, context: &str) -> (r: bool)
    ensures
        r == context_ok(when@, context@),
{
    let c = chars_of(context);
    let w = chars_of(when);
    contains_chars(&c, &w) || str_eq(when, "*")
}

/// A command that a search with these options looks at.
pub open spec fn passes(o: SearchOptions, c: Command) -> bool {
    &&& o.include_disabled || c.enabled
    &&& o.category is Some ==> c.category == o.category->Some_0
    &&& o.source is Some ==> c.source == o.source->Some_0
    &&& o.context is Some && c.when is Some ==> context_ok(c.when->Some_0@, o.context->Some_0@)
}

/// The query matches the command's label, "category: label" or description.
pub open spec fn command_found(query: Seq<char>, c: Command) -> bool {
    multi_found(query, c.label@, opt_string_view(c.description), category_label(c.category))
}

/// The registry after registering `cmds` in order, where the first command under an id
/// wins and commands already registered stay.
pub open spec fn register_all(m: Map<Seq<char>, Command>, cmds: Seq<Command>) -> Map<
    Seq<char>,
    Command,
>
    decreases cmds.len(),
{
    if cmds.len() == 0 {
        m
    } else {
        let before = register_all(m, cmds.drop_last());
        let c = cmds.last();
        if before.contains_key(c.id@) {
            before
        } else {
            before.insert(c.id@, c)
        }
    }
}

/// All commands of the palette, keyed by id.
pub struct CommandRegistry {
    commands: KeyedStore<Command>,
}

impl View for CommandRegistry {
    type V = Map<Seq<char>, Command>;

    closed spec fn view(&self) -> Map<Seq<char>, Command> {
        self.commands@
    }
}

/// Every command is registered under its own id.
pub open spec fn keyed_by_id(m: Map<Seq<char>, Command>) -> bool {
    forall|k: Seq<char>| #[trigger] m.contains_key(k) ==> m[k].id@ == k
}

/// A search result that is right for a registry, a query, options and keybindings.
pub open spec fn result_ok(
    m: Map<Seq<char>, Command>,
    query: Seq<char>,
    o: SearchOptions,
    keys: Map<Seq<char>, String>,
    r: CommandSearchResult,
) -> bool {
    let id = r.command.command.id@;
    &&& m.contains_key(id)
    &&& same_command(r.command.command, m[id])
    &&& passes(o, m[id])
    &&& command_found(query, m[id])
    &&& multi_result(
        query,
        m[id].label@,
        opt_string_view(m[id].description),
        category_label(m[id].category),
        r.score as int,
        index_view(r.matched_indices@),
    )
    &&& opt_string_view(r.command.keybinding) == (if keys.contains_key(id) {
        Some(keys[id]@)
    } else {
        None
    })
}

/// The query matches command `c` with a score of at most `bound`.
pub open spec fn scores_at_most(query: Seq<char>, c: Command, bound: int) -> bool {
    exists|s: int, ix: Seq<int>|
        #[trigger] multi_result(
            query,
            c.label@,
            opt_string_view(c.description),
            category_label(c.category),
            s,
            ix,
        ) && s <= bound
}

/// Some result is for the command under `k`.
pub open spec fn has_result(r: Seq<CommandSearchResult>, k: Seq<char>) -> bool {
    exists|q: int| 0 <= q < r.len() && r[q].command.command.id@ == k
}

pub open spec fn sorted_by_score(s: Seq<CommandSearchResult>) -> bool {
    forall|a: int, b: int| 0 <= a < b < s.len() ==> s[a].score >= s[b].score
}

pub open spec fn result_ids_distinct(s: Seq<CommandSearchResult>) -> bool {
    forall|a: int, b: int|
        0 <= a < s.len() && 0 <= b < s.len() && a != b ==> s[a].command.command.id@
            != s[b].command.command.id@
}

fn copy_keybinding(keys: &KeyedStore<String>, id: &str) -> (r: Option<String>)
    requires
        keys.wf(),
    ensures
        opt_string_view(r) == (if keys@.contains_key(id@) {
            Some(keys@[id@]@)
        } else {
            None
        }),
{
    match keys.get(id) {
        Some(k) => Some(k.clone()),
        None => None,
    }
}

/// Puts `item` after every result that scores at least as much, before the rest.
fn insert_sorted(results: &mut Vec<CommandSearchResult>, item: CommandSearchResult) -> (pos: usize)
    requires
        sorted_by_score(old(results)@),
    ensures
        pos <= old(results)@.len(),
        final(results)@ == old(results)@.insert(pos as int, item),
        sorted_by_score(final(results)@),
{
    let ghost before = results@;
    let mut pos: usize = 0;
    while pos < results.len() && results[pos].score >= item.score
        invariant
            pos <= results@.len(),
            results@ == before,
            forall|q: int| 0 <= q < pos ==> results@[q].score >= item.score,
        decreases results.len() - pos,
    {
        pos = pos + 1;
    }
    let ghost s = item.score;
    results.insert(pos, item);
    proof {
        let nr = results@;
        assert forall|q: int| 0 <= q < nr.len() implies #[trigger] nr[q] == (if q < pos {
            before[q]
        } else if q == pos {
            item
        } else {
            before[q - 1]
        }) by {}
        assert forall|a: int, b: int| 0 <= a < b < nr.len() implies nr[a].score >= nr[b].score by {
            if b <= pos {
            } else if a < pos {
                assert(before[a].score >= s);
                assert(before[pos as int].score < s);
                assert(before[pos as int].score >= before[b - 1].score || b - 1 == pos);
            } else if a == pos {
                assert(before[pos as int].score < s);
                assert(before[pos as int].score >= before[b - 1].score || b - 1 == pos);
            } else {
                assert(before[a - 1].score >= before[b - 1].score);
            }
        }
    }
    pos
}

proof fn lemma_insert_keeps(
    old_res: Seq<CommandSearchResult>,
    item: CommandSearchResult,
    pos: int,
    nr: Seq<CommandSearchResult>,
    m: Map<Seq<char>, Command>,
    query: Seq<char>,
    o: SearchOptions,
    keys: Map<Seq<char>, String>,
)
    requires
        0 <= pos <= old_res.len(),
        nr == old_res.insert(pos, item),
        result_ids_distinct(old_res),
        forall|q: int| 0 <= q < old_res.len() ==> old_res[q].command.command.id@ != item.command.command.id@,
        forall|q: int| 0 <= q < old_res.len() ==> #[trigger] result_ok(m, query, o, keys, old_res[q]),
        result_ok(m, query, o, keys, item),
    ensures
        result_ids_distinct(nr),
        forall|q: int| 0 <= q < nr.len() ==> #[trigger] result_ok(m, query, o, keys, nr[q]),
        nr[pos] == item,
        forall|q: int| 0 <= q < pos ==> #[trigger] nr[q] == old_res[q],
        forall|q: int| pos < q < nr.len() ==> #[trigger] nr[q] == old_res[q - 1],
{
    assert forall|q: int| 0 <= q < nr.len() implies #[trigger] result_ok(m, query, o, keys, nr[q]) by {
        if q < pos {
            assert(nr[q] == old_res[q]);
        } else if q > pos {
            assert(nr[q] == old_res[q - 1]);
        }
    }
    assert forall|a: int, b: int| 0 <= a < nr.len() && 0 <= b < nr.len() && a != b implies nr[a].command.command.id@
        != nr[b].command.command.id@ by {
        let oa = if a < pos { a } else { a - 1 };
        let ob = if b < pos { b } else { b - 1 };
        if a != pos && b != pos {
            assert(nr[a] == old_res[oa] && nr[b] == old_res[ob]);
        } else if a == pos {
            assert(nr[b] == old_res[ob]);
        } else {
            assert(nr[a] == old_res[oa]);
        }
    }
}

impl CommandRegistry {
    pub closed spec fn wf(&self) -> bool {
        self.commands.wf() && keyed_by_id(self.commands@)
    }

    /// The registry holds finitely many commands.
    pub proof fn lemma_finite(&self)
        requires
            self.wf(),
        ensures
            self@.dom().finite(),
    {
        self.commands.lemma_finite();
    }

    /// An empty registry.
    pub fn new() -> (r: Self)
        ensures
            r.wf(),
            r@ == Map::<Seq<char>, Command>::empty(),
    {
        CommandRegistry { commands: KeyedStore::new() }
    }

    /// Registers a command; a command whose id is taken is refused.
    pub fn register(&mut self, command: Command) -> (r: Result<(), String>)
        requires
            old(self).wf(),
        ensures
            final(self).wf(),
            r is Ok <==> !old(self)@.contains_key(command.id@),
            r is Ok ==> final(self)@ == old(self)@.insert(command.id@, command),
            r is Ok ==> final(self)@.len() == old(self)@.len() + 1,
            r is Err ==> final(self)@ == old(self)@ && r->Err_0@ == "Command '"@ + command.id@
                + "' already registered"@,
    {
        if self.commands.contains(command.id.as_str()) {
            let lead = join("Command '", command.id.as_str());
            return Err(join(lead.as_str(), "' already registered"));
        }
        let key = command.id.clone();
        proof {
            self.commands.lemma_finite();
        }
        let _ = self.commands.insert(key, command);
        Ok(())
    }

    /// Registers each command in turn, skipping those whose id is taken.
    pub fn register_many(&mut self, cmds: Vec<Command>) -> (r: Result<(), String>)
        requires
            old(self).wf(),
        ensures
            final(self).wf(),
            r is Ok,
            final(self)@ == register_all(old(self)@, cmds@),
    {
        let ghost all = cmds@;
        let mut rest = cmds;
        let mut k: usize = 0;
        let n = rest.len();
        while rest.len() > 0
            invariant
                self.wf(),
                k <= n,
                n == all.len(),
                rest@ == all.subrange(k as int, n as int),
                self@ == register_all(old(self)@, all.subrange(0, k as int)),
            decreases rest.len(),
        {
            let c = rest.remove(0);
            proof {
                assert(all.subrange(0, k + 1).drop_last() == all.subrange(0, k as int));
                assert(all.subrange(0, k + 1).last() == c);
                assert(rest@ == all.subrange(k + 1, n as int));
            }
            if !self.commands.contains(c.id.as_str()) {
                let key = c.id.clone();
                let _ = self.commands.insert(key, c);
            }
            k = k + 1;
        }
        proof {
            assert(all.subrange(0, n as int) == all);
        }
        Ok(())
    }

    /// Removes the command under `id`; says whether there was one.
    pub fn unregister(&mut self, id: &str) -> (r: Result<bool, String>)
        requires
            old(self).wf(),
        ensures
            final(self).wf(),
            r is Ok && r->Ok_0 == old(self)@.contains_key(id@),
            final(self)@ == old(self)@.remove(id@),
    {
        Ok(self.commands.remove(id).is_some())
    }

    /// Removes every command of `source`; returns how many went.
    pub fn unregister_by_source(&mut self, source: CommandSource) -> (r: Result<usize, String>)
        requires
            old(self).wf(),
        ensures
            final(self).wf(),
            forall|k: Seq<char>| #[trigger]
                final(self)@.contains_key(k) <==> old(self)@.contains_key(k) && old(self)@[k].source
                    != source,
            forall|k: Seq<char>| #[trigger] final(self)@.contains_key(k) ==> final(self)@[k] == old(self)@[k],
            r is Ok && r->Ok_0 == old(self)@.len() - final(self)@.len(),
            r->Ok_0 == old(self)@.dom().filter(|k: Seq<char>| old(self)@[k].source == source).len(),
    {
        let keys = self.commands.keys();
        let before = self.commands.len();
        let mut i: usize = 0;
        while i < keys.len()
            invariant
                self.wf(),
                i <= keys@.len(),
                forall|q: int| 0 <= q < keys@.len() ==> old(self)@.contains_key(#[trigger] keys@[q]@),
                forall|key: Seq<char>| old(self)@.contains_key(key) ==> exists|q: int|
                    0 <= q < keys@.len() && #[trigger] keys@[q]@ == key,
                forall|a: int, b: int|
                    0 <= a < keys@.len() && 0 <= b < keys@.len() && a != b ==> keys@[a]@ != keys@[b]@,
                forall|k: Seq<char>| #[trigger]
                    self@.contains_key(k) <==> old(self)@.contains_key(k) && !(old(self)@[k].source
                        == source && exists|q: int| 0 <= q < i && #[trigger] keys@[q]@ == k),
                forall|k: Seq<char>| #[trigger] self@.contains_key(k) ==> self@[k] == old(self)@[k],
                before == old(self)@.len(),
            decreases keys.len() - i,
        {
            let key = &keys[i];
            let ghost prev = self@;
            let remove = match self.commands.get(key.as_str()) {
                Some(c) => c.source == source,
                None => false,
            };
            if remove {
                let _ = self.commands.remove(key.as_str());
            }
            proof {
                let ki = keys@[i as int]@;
                assert(remove ==> self@ == prev.remove(ki));
                assert(!remove ==> self@ == prev);
                assert forall|k: Seq<char>| #[trigger] self@.contains_key(k) implies self@[k] == old(self)@[k] by {
                    assert(prev.contains_key(k));
                }
                assert forall|k: Seq<char>| #[trigger] self@.contains_key(k) <==> old(self)@.contains_key(k)
                    && !(old(self)@[k].source == source && exists|q: int|
                    0 <= q < i + 1 && #[trigger] keys@[q]@ == k) by {
                    if k == ki {
                        assert(keys@[i as int]@ == k);
                        if exists|q: int| 0 <= q < i && #[trigger] keys@[q]@ == k {
                            let q = choose|q: int| 0 <= q < i && #[trigger] keys@[q]@ == k;
                            assert(keys@[q]@ != keys@[i as int]@);
                        }
                        if prev.contains_key(k) {
                            assert(prev[k] == old(self)@[k]);
                        }
                    } else {
                        if exists|q: int| 0 <= q < i + 1 && #[trigger] keys@[q]@ == k {
                            let q = choose|q: int| 0 <= q < i + 1 && #[trigger] keys@[q]@ == k;
                            assert(q < i);
                        }
                    }
                }
            }
            i = i + 1;
        }
        proof {
            self.commands.lemma_finite();
            old(self).commands.lemma_finite();
            assert forall|k: Seq<char>| #[trigger] self@.contains_key(k) <==> old(self)@.contains_key(k)
                && old(self)@[k].source != source by {
                if old(self)@.contains_key(k) {
                    let q = choose|q: int| 0 <= q < keys@.len() && #[trigger] keys@[q]@ == k;
                    assert(keys@[q]@ == k);
                }
            }
            assert(self@.dom().subset_of(old(self)@.dom()));
            vstd::set_lib::lemma_len_subset(self@.dom(), old(self)@.dom());
            let gone = old(self)@.dom().filter(|k: Seq<char>| old(self)@[k].source == source);
            old(self)@.dom().lemma_len_filter(|k: Seq<char>| old(self)@[k].source == source);
            assert(gone.disjoint(self@.dom()));
            assert(gone + self@.dom() =~= old(self)@.dom());
            vstd::set_lib::lemma_set_disjoint_lens(gone, self@.dom());
        }
        let after = self.commands.len();
        Ok(before - after)
    }

    /// The command registered under `id`.
    pub fn get(&self, id: &str) -> (r: Option<&Command>)
        requires
            self.wf(),
        ensures
            r is Some <==> self@.contains_key(id@),
            r is Some ==> *r->Some_0 == self@[id@],
    {
        self.commands.get(id)
    }

    /// The registered commands that `keep` holds of, each once.
    fn collect(&self, category: Option<CommandCategory>) -> (r: Vec<&Command>)
        requires
            self.wf(),
        ensures
            forall|q: int| 0 <= q < r@.len() ==> self@.contains_key(#[trigger] r@[q].id@) && *r@[q]
                == self@[r@[q].id@],
            forall|q: int| 0 <= q < r@.len() ==> category is Some ==> #[trigger] r@[q].category
                == category->Some_0,
            forall|k: Seq<char>| #[trigger] self@.contains_key(k) && (category is None
                || self@[k].category == category->Some_0) ==> exists|q: int|
                0 <= q < r@.len() && r@[q].id@ == k,
            forall|a: int, b: int| 0 <= a < r@.len() && 0 <= b < r@.len() && a != b ==> r@[a].id@ != r@[b].id@,
    {
        let keys = self.commands.keys();
        let mut out: Vec<&Command> = Vec::new();
        let mut i: usize = 0;
        while i < keys.len()
            invariant
                self.wf(),
                i <= keys@.len(),
                forall|q: int| 0 <= q < keys@.len() ==> self@.contains_key(#[trigger] keys@[q]@),
                forall|key: Seq<char>| self@.contains_key(key) ==> exists|q: int|
                    0 <= q < keys@.len() && #[trigger] keys@[q]@ == key,
                forall|a: int, b: int|
                    0 <= a < keys@.len() && 0 <= b < keys@.len() && a != b ==> keys@[a]@ != keys@[b]@,
                forall|q: int| 0 <= q < out@.len() ==> self@.contains_key(#[trigger] out@[q].id@) && *out@[q]
                    == self@[out@[q].id@],
                forall|q: int| 0 <= q < out@.len() ==> category is Some ==> #[trigger] out@[q].category
                    == category->Some_0,
                forall|q: int| 0 <= q < out@.len() ==> exists|p: int| 0 <= p < i && #[trigger] keys@[p]@ == #[trigger] out@[q].id@,
                forall|p: int| 0 <= p < i && (category is None || self@[keys@[p]@].category == category->Some_0) ==> exists|q: int|
                    0 <= q < out@.len() && out@[q].id@ == #[trigger] keys@[p]@,
                forall|a: int, b: int| 0 <= a < out@.len() && 0 <= b < out@.len() && a != b ==> out@[a].id@ != out@[b].id@,
            decreases keys.len() - i,
        {
            let key = &keys[i];
            let ghost old_out = out@;
            match self.commands.get(key.as_str()) {
                Some(c) => {
                    let keep = match category {
                        Some(cat) => c.category == cat,
                        None => true,
                    };
                    if keep {
                        proof {
                            assert(keyed_by_id(self.commands@));
                            assert(c.id@ == keys@[i as int]@);
                            assert forall|q: int| 0 <= q < out@.len() implies out@[q].id@ != c.id@ by {
                                let p = choose|p: int| 0 <= p < i && #[trigger] keys@[p]@ == out@[q].id@;
                                assert(p != i);
                            }
                        }
                        out.push(c);
                        proof {
                            assert(out@[out@.len() - 1].id@ == keys@[i as int]@);
                        }
                    }
                },
                None => {},
            }
            proof {
                assert forall|q: int| 0 <= q < out@.len() implies exists|p: int| 0 <= p < i + 1 && #[trigger] keys@[p]@ == #[trigger] out@[q].id@ by {
                    if q < old_out.len() {
                        assert(out@[q] == old_out[q]);
                        let p = choose|p: int| 0 <= p < i && #[trigger] keys@[p]@ == old_out[q].id@;
                        assert(keys@[p]@ == out@[q].id@);
                    } else {
                        assert(keys@[i as int]@ == out@[q].id@);
                    }
                }
                assert forall|p: int| 0 <= p < i + 1 && (category is None || self@[keys@[p]@].category == category->Some_0) implies exists|q: int|
                    0 <= q < out@.len() && out@[q].id@ == #[trigger] keys@[p]@ by {
                    if p < i {
                        let q = choose|q: int| 0 <= q < old_out.len() && old_out[q].id@ == #[trigger] keys@[p]@;
                        assert(out@[q] == old_out[q]);
                    } else {
                        assert(self@.contains_key(keys@[i as int]@));
                        assert(out@[out@.len() - 1].id@ == keys@[i as int]@);
                    }
                }
            }
            i = i + 1;
        }
        proof {
            assert forall|k: Seq<char>| #[trigger] self@.contains_key(k) && (category is None
                || self@[k].category == category->Some_0) implies exists|q: int|
                0 <= q < out@.len() && out@[q].id@ == k by {
                let p = choose|p: int| 0 <= p < keys@.len() && #[trigger] keys@[p]@ == k;
                assert(keys@[p]@ == k);
            }
        }
        out
    }

    /// Every registered command, each once.
    pub fn get_all(&self) -> (r: Vec<&Command>)
        requires
            self.wf(),
        ensures
            forall|q: int| 0 <= q < r@.len() ==> self@.contains_key(#[trigger] r@[q].id@) && *r@[q]
                == self@[r@[q].id@],
            forall|k: Seq<char>| #[trigger] self@.contains_key(k) ==> exists|q: int|
                0 <= q < r@.len() && r@[q].id@ == k,
            forall|a: int, b: int| 0 <= a < r@.len() && 0 <= b < r@.len() && a != b ==> r@[a].id@ != r@[b].id@,
    {
        self.collect(None)
    }

    /// Every registered command of `category`, each once.
    pub fn get_by_category(&self, category: CommandCategory) -> (r: Vec<&Command>)
        requires
            self.wf(),
        ensures
            forall|q: int| 0 <= q < r@.len() ==> self@.contains_key(#[trigger] r@[q].id@) && *r@[q]
                == self@[r@[q].id@] && r@[q].category == category,
            forall|k: Seq<char>| #[trigger] self@.contains_key(k) && self@[k].category == category ==> exists|q: int|
                0 <= q < r@.len() && r@[q].id@ == k,
            forall|a: int, b: int| 0 <= a < r@.len() && 0 <= b < r@.len() && a != b ==> r@[a].id@ != r@[b].id@,
    {
        self.collect(Some(category))
    }

    /// Enables or disables the command under `id`; says whether there was one.
    pub fn set_enabled(&mut self, id: &str, enabled: bool) -> (r: Result<bool, String>)
        requires
            old(self).wf(),
        ensures
            final(self).wf(),
            r is Ok && r->Ok_0 == old(self)@.contains_key(id@),
            !old(self)@.contains_key(id@) ==> final(self)@ == old(self)@,
            old(self)@.contains_key(id@) ==> final(self)@ == old(self)@.insert(
                id@,
                (Command { enabled: enabled, ..old(self)@[id@] }),
            ),
    {
        match self.commands.remove(id) {
            Some(c) => {
                let mut c = c;
                c.enabled = enabled;
                let key = c.id.clone();
                let _ = self.commands.insert(key, c);
                proof {
                    assert(self@ =~= old(self)@.insert(
                        id@,
                        (Command { enabled: enabled, ..old(self)@[id@] }),
                    ));
                }
                Ok(true)
            },
            None => Ok(false),
        }
    }

    /// Replaces the label and the description of the command under `id`, each where one
    /// is given; says whether there was such a command.
    pub fn update(&mut self, id: &str, label: Option<String>, description: Option<String>) -> (r: Result<bool, String>)
        requires
            old(self).wf(),
        ensures
            final(self).wf(),
            r is Ok && r->Ok_0 == old(self)@.contains_key(id@),
            !old(self)@.contains_key(id@) ==> final(self)@ == old(self)@,
            old(self)@.contains_key(id@) ==> final(self)@ == old(self)@.insert(
                id@,
                (Command {
                    label: if label is Some { label->Some_0 } else { old(self)@[id@].label },
                    description: if description is Some { description } else { old(self)@[id@].description },
                    ..old(self)@[id@]
                }),
            ),
    {
        match self.commands.remove(id) {
            Some(c) => {
                let mut c = c;
                if let Some(l) = label {
                    c.label = l;
                }
                if let Some(d) = description {
                    c.description = Some(d);
                }
                let key = c.id.clone();
                let _ = self.commands.insert(key, c);
                proof {
                    assert(self@ =~= old(self)@.insert(
                        id@,
                        (Command {
                            label: if label is Some { label->Some_0 } else { old(self)@[id@].label },
                            description: if description is Some { description } else { old(self)@[id@].description },
                            ..old(self)@[id@]
                        }),
                    ));
                }
                Ok(true)
            },
            None => Ok(false),
        }
    }

    /// The search result for one registered command, where it passes `options` and the
    /// query matches it.
    fn search_one(
        &self,
        cmd: &Command,
        query: &str,
        options: &SearchOptions,
        keybindings: &KeyedStore<String>,
    ) -> (r: Option<CommandSearchResult>)
        requires
            self.wf(),
            keybindings.wf(),
            self@.contains_key(cmd.id@),
            self@[cmd.id@] == *cmd,
        ensures
            r is Some <==> passes(*options, *cmd) && command_found(query@, *cmd),
            r is Some ==> result_ok(self@, query@, *options, keybindings@, r->Some_0)
                && r->Some_0.command.command.id@ == cmd.id@,
    {
        let mut pass = options.include_disabled || cmd.enabled;
        if let Some(cat) = options.category {
            if cmd.category != cat {
                pass = false;
            }
        }
        if let Some(src) = options.source {
            if cmd.source != src {
                pass = false;
            }
        }
        if let Some(ctx) = &options.context {
            if let Some(when) = &cmd.when {
                if !context_matches(when.as_str(), ctx.as_str()) {
                    pass = false;
                }
            }
        }
        if !pass {
            return None;
        }
        let description = match &cmd.description {
            Some(d) => Some(d.as_str()),
            None => None,
        };
        assert(opt_str_view(description) == opt_string_view(cmd.description));
        match fuzzy_match_multi(query, cmd.label.as_str(), description, cmd.category.label()) {
            Some(m) => Some(
                CommandSearchResult {
                    command: CommandWithKeybinding {
                        command: cmd.copy(),
                        keybinding: copy_keybinding(keybindings, cmd.id.as_str()),
                    },
                    score: m.score,
                    matched_indices: m.matched_indices,
                },
            ),
            None => None,
        }
    }

    /// Searches the commands that pass `options` with the fuzzy matcher: the matches come
    /// best first (equal scores in the order they were found), each with its keybinding
    /// from `keybindings`, cut to `options.limit` if one is set.
    #[verifier::rlimit(60)]
    pub fn search(
        &self,
        query: &str,
        options: SearchOptions,
        keybindings: &KeyedStore<String>,
    ) -> (r: Vec<CommandSearchResult>)
        requires
            self.wf(),
            keybindings.wf(),
        ensures
            sorted_by_score(r@),
            result_ids_distinct(r@),
            forall|q: int| 0 <= q < r@.len() ==> #[trigger] result_ok(self@, query@, options, keybindings@, r@[q]),
            options.limit is Some ==> r@.len() <= options.limit->Some_0,
            options.limit is None || r@.len() < options.limit->Some_0 ==> forall|k: Seq<char>|
                #[trigger] self@.contains_key(k) && passes(options, self@[k]) && command_found(query@, self@[k])
                ==> exists|q: int| 0 <= q < r@.len() && r@[q].command.command.id@ == k,
            r@.len() > 0 ==> forall|k: Seq<char>|
                #[trigger] self@.contains_key(k) && passes(options, self@[k]) && command_found(query@, self@[k])
                && !has_result(r@, k) ==> scores_at_most(query@, self@[k], r@.last().score as int),
    {
        let keys = self.commands.keys();
        let mut results: Vec<CommandSearchResult> = Vec::new();
        let mut i: usize = 0;
        while i < keys.len()
            invariant
                self.wf(),
                keybindings.wf(),
                i <= keys@.len(),
                forall|q: int| 0 <= q < keys@.len() ==> self@.contains_key(#[trigger] keys@[q]@),
                forall|key: Seq<char>| self@.contains_key(key) ==> exists|q: int|
                    0 <= q < keys@.len() && #[trigger] keys@[q]@ == key,
                forall|a: int, b: int|
                    0 <= a < keys@.len() && 0 <= b < keys@.len() && a != b ==> keys@[a]@ != keys@[b]@,
                sorted_by_score(results@),
                result_ids_distinct(results@),
                forall|q: int| 0 <= q < results@.len() ==> #[trigger] result_ok(self@, query@, options, keybindings@, results@[q]),
                forall|q: int| 0 <= q < results@.len() ==> exists|p: int| 0 <= p < i && #[trigger] keys@[p]@ == #[trigger] results@[q].command.command.id@,
                forall|p: int| 0 <= p < i && passes(options, self@[keys@[p]@]) && command_found(query@, self@[keys@[p]@]) ==> exists|q: int|
                    0 <= q < results@.len() && results@[q].command.command.id@ == #[trigger] keys@[p]@,
            decreases keys.len() - i,
        {
            let key = &keys[i];
            let ghost old_res = results@;
            let ghost ki = keys@[i as int]@;
            let mut found: Option<CommandSearchResult> = None;
            match self.commands.get(key.as_str()) {
                Some(cmd) => {
                    proof {
                        assert(keyed_by_id(self.commands@));
                    }
                    found = self.search_one(cmd, query, &options, keybindings);
                },
                None => {},
            }
            match found {
                Some(item) => {
                    proof {
                        assert forall|q: int| 0 <= q < old_res.len() implies old_res[q].command.command.id@ != ki by {
                            let p = choose|p: int| 0 <= p < i && #[trigger] keys@[p]@ == #[trigger] old_res[q].command.command.id@;
                            assert(keys@[p]@ != keys@[i as int]@);
                        }
                    }
                    let pos = insert_sorted(&mut results, item);
                    proof {
                        lemma_insert_keeps(old_res, item, pos as int, results@, self@, query@, options, keybindings@);
                        let nr = results@;
                        assert forall|q: int| 0 <= q < nr.len() implies exists|p: int| 0 <= p < i + 1 && #[trigger] keys@[p]@ == #[trigger] nr[q].command.command.id@ by {
                            if q == pos {
                                assert(keys@[i as int]@ == nr[q].command.command.id@);
                            } else {
                                let oq = if q < pos { q } else { q - 1 };
                                assert(nr[q] == old_res[oq]);
                                let p = choose|p: int| 0 <= p < i && #[trigger] keys@[p]@ == #[trigger] old_res[oq].command.command.id@;
                                assert(keys@[p]@ == nr[q].command.command.id@);
                            }
                        }
                        assert forall|p: int| 0 <= p < i + 1 && passes(options, self@[keys@[p]@]) && command_found(query@, self@[keys@[p]@]) implies exists|q: int|
                            0 <= q < nr.len() && nr[q].command.command.id@ == #[trigger] keys@[p]@ by {
                            if p < i {
                                let q = choose|q: int| 0 <= q < old_res.len() && old_res[q].command.command.id@ == #[trigger] keys@[p]@;
                                if q < pos {
                                    assert(nr[q] == old_res[q]);
                                } else {
                                    assert(nr[q + 1] == old_res[q]);
                                }
                            } else {
                                assert(nr[pos as int].command.command.id@ == keys@[p]@);
                            }
                        }
                    }
                },
                None => {
                    proof {
                        assert forall|q: int| 0 <= q < results@.len() implies exists|p: int| 0 <= p < i + 1 && #[trigger] keys@[p]@ == #[trigger] results@[q].command.command.id@ by {
                            let p = choose|p: int| 0 <= p < i && #[trigger] keys@[p]@ == #[trigger] results@[q].command.command.id@;
                            assert(keys@[p]@ == results@[q].command.command.id@);
                        }
                        assert forall|p: int| 0 <= p < i + 1 && passes(options, self@[keys@[p]@]) && command_found(query@, self@[keys@[p]@]) implies exists|q: int|
                            0 <= q < results@.len() && results@[q].command.command.id@ == #[trigger] keys@[p]@ by {
                            if p == i {
                                assert(self@.contains_key(ki));
                            }
                        }
                    }
                },
            }
            i = i + 1;
        }
        proof {
            assert forall|k: Seq<char>| #[trigger] self@.contains_key(k) && passes(options, self@[k]) && command_found(query@, self@[k])
                implies exists|q: int| 0 <= q < results@.len() && results@[q].command.command.id@ == k by {
                let p = choose|p: int| 0 <= p < keys@.len() && #[trigger] keys@[p]@ == k;
                assert(keys@[p]@ == k);
            }
        }
        let ghost all = results@;
        if let Some(limit) = options.limit {
            if results.len() > limit {
                results.truncate(limit);
            }
        }
        proof {
            assert(results@ == all.subrange(0, results@.len() as int));
            assert forall|k: Seq<char>|
                #[trigger] self@.contains_key(k) && passes(options, self@[k]) && command_found(query@, self@[k])
                && !has_result(results@, k) && results@.len() > 0 implies scores_at_most(
                query@,
                self@[k],
                results@.last().score as int,
            ) by {
                let q = choose|q: int| 0 <= q < all.len() && all[q].command.command.id@ == k;
                if q < results@.len() {
                    assert(results@[q] == all[q]);
                    assert(has_result(results@, k));
                }
                let last = results@.len() - 1;
                assert(all[last] == results@[last]);
                assert(all[q].score <= all[last].score);
                assert(result_ok(self@, query@, options, keybindings@, all[q]));
                let c = self@[k];
                assert(multi_result(
                    query@,
                    c.label@,
                    opt_string_view(c.description),
                    category_label(c.category),
                    all[q].score as int,
                    index_view(all[q].matched_indices@),
                ));
            }
        }
        results
    }

    /// The number of registered commands.
    pub fn count(&self) -> (r: usize)
        requires
            self.wf(),
        ensures
            r == self@.len(),
    {
        self.commands.len()
    }
}

impl Default for CommandRegistry {
    fn default() -> (r: Self)
        ensures
            r.wf(),
            r@ == Map::<Seq<char>, Command>::empty(),
    {
        CommandRegistry::new()
    }
}

} // verus!
