//! The expansion of the custom elements of a document.

use vstd::prelude::*;
use crate::custom::{copy_opt, CustomElm};
use crate::parse_model::{Doc, Fault};
use crate::parser::{agrees, ParseError, Parser};
use crate::plugins::{match_plugin, match_template, site, Plugin, PluginKind, Template};
use crate::resolve_model::{
    custom_ids, expand, jobs_of, plugin_of, resolve, run_job, run_jobs, run_round, set_template,
    template_of, unseen, Job, PluginTag,
};
use crate::strmap::StrMap;
use crate::tree::{nodes, Element, Kind};

verus! {

/// A custom element that is being expanded: what its payload says, the id
/// of its element, and the plugin and the template that its name stands for.
#[derive(Debug)]
pub struct Custom {
    pub name: String,
    pub id: u32,
    pub data: StrMap,
    pub body: Option<String>,
    pub template: Option<Template>,
    pub plugin: Option<PluginKind>,
}

impl Custom {
    /// The custom element as a job of the model.
    pub open spec fn job(&self) -> Job {
        Job { id: self.id, name: self.name@, data: self.data@ }
    }

    /// The custom element holds the plugin and the template of its name, and
    /// the plugin has loaded what it needs.
    pub open spec fn ready(&self, target: &Parser) -> bool {
        &&& match self.template {
            Some(t) => template_of(self.name@) == Some(t.content@),
            None => template_of(self.name@) is None,
        }
        &&& match self.plugin {
            Some(PluginKind::Navbar(n)) => plugin_of(self.name@) == Some(PluginTag::Navbar)
                && n.id == self.id && n.loaded(target.metadata.frontmatter.model()),
            Some(PluginKind::BlogList(b)) => plugin_of(self.name@) == Some(PluginTag::BlogList)
                && b.id == self.id && b.loaded() && b.values@ == self.data@,
            None => plugin_of(self.name@) is None,
        }
    }

    /// A custom element without plugin and template.
    pub fn new(name: String, data: StrMap, body: Option<String>, id: u32) -> (c: Self)
        ensures
            c.name == name,
            c.data == data,
            c.body == body,
            c.id == id,
            c.template is None,
            c.plugin is None,
    {
        Custom { name, id, data, body, template: None, plugin: None }
    }

    /// The custom element of a payload.
    pub fn from_elm(elm: &CustomElm, id: u32) -> (c: Self)
        ensures
            c.name@ == elm.name@,
            c.data@ == elm.values@,
            c.id == id,
            c.template is None,
            c.plugin is None,
    {
        Custom::new(elm.name.clone(), elm.values.copy(), copy_opt(&elm.body), id)
    }

    /// The plugin of the name.
    pub fn find_plugin(&self) -> (r: Option<PluginKind>)
        ensures
            match r {
                Some(p) => plugin_of(self.name@) == Some(p.tag()),
                None => plugin_of(self.name@) is None,
            },
    {
        match_plugin(self.name.as_str())
    }

    /// The template of the name.
    pub fn find_template(&self) -> (r: Option<Template>)
        ensures
            match r {
                Some(t) => template_of(self.name@) == Some(t.content@),
                None => template_of(self.name@) is None,
            },
    {
        match_template(self.name.as_str())
    }

    /// Lets the plugin load what it needs from the document.
    pub fn pre_load(&mut self, target: &Parser)
        requires
            match old(self).plugin {
                Some(p) => plugin_of(old(self).name@) == Some(p.tag()),
                None => plugin_of(old(self).name@) is None,
            },
            match old(self).template {
                Some(t) => template_of(old(self).name@) == Some(t.content@),
                None => template_of(old(self).name@) is None,
            },
        ensures
            final(self).ready(target),
            final(self).job() == old(self).job(),
    {
        match self.plugin.take() {
            Some(PluginKind::Navbar(n)) => {
                let mut n = n;
                n.pre_load(target, self);
                self.plugin = Some(PluginKind::Navbar(n));
            },
            Some(PluginKind::BlogList(b)) => {
                let mut b = b;
                b.pre_load(target, self);
                self.plugin = Some(PluginKind::BlogList(b));
            },
            None => {},
        }
    }

    /// Runs the plugin on the document.
    pub fn run(&mut self, target: &mut Parser, others: &Vec<Option<Parser>>) -> (r: Result<
        (),
        ParseError,
    >)
        ensures
            final(target).same_source(old(target)),
            *final(self) == *old(self),
            old(self).ready(old(target)) ==> agrees(
                r,
                final(target).doc(),
                match plugin_of(old(self).name@) {
                    Some(PluginTag::Navbar) => crate::resolve_model::run_navbar(
                        old(target).doc(),
                        old(target).metadata.frontmatter.model(),
                        site(others@),
                        old(self).id,
                    ),
                    Some(PluginTag::BlogList) => crate::resolve_model::run_blog_list(
                        old(target).doc(),
                        site(others@),
                        old(self).id,
                        old(self).data@,
                    ),
                    None => Ok(old(target).doc()),
                },
            ),
    {
        match &mut self.plugin {
            Some(PluginKind::Navbar(n)) => n.run(target, others),
            Some(PluginKind::BlogList(b)) => b.run(target, others),
            None => Ok(()),
        }
    }

    /// Sets the template in the custom element of the document.
    pub fn insert_template(&self, target: &mut Parser)
        ensures
            final(target).same_source(old(target)),
            final(target).doc() == (match self.template {
                Some(t) => Doc {
                    ast: set_template(old(target).doc().ast, self.id, t.content@),
                    ..old(target).doc()
                },
                None => old(target).doc(),
            }),
    {
        if let Some(t) = &self.template {
            let id = self.id;
            match target.ast.find_mut(id) {
                Some(elm) => {
                    let ghost before = elm.model();
                    if elm.kind.is_custom() {
                        let mut kind = Kind::Text;
                        std::mem::swap(&mut elm.kind, &mut kind);
                        match kind {
                            Kind::CustomElement(c) => {
                                let mut c = c;
                                c.template = Some(t.content.clone());
                                elm.kind = Kind::CustomElement(c);
                            },
                            other => {
                                elm.kind = other;
                            },
                        }
                    }
                    proof {
                        assert(elm.model().children =~= before.children);
                        crate::tree::lemma_update_same(old(target).ast.model(), id, before);
                    }
                },
                None => {},
            }
        }
    }

    /// Finds the plugin and the template of the name.
    pub fn find(&mut self)
        ensures
            final(self).job() == old(self).job(),
            match final(self).plugin {
                Some(p) => plugin_of(final(self).name@) == Some(p.tag()),
                None => plugin_of(final(self).name@) is None,
            },
            match final(self).template {
                Some(t) => template_of(final(self).name@) == Some(t.content@),
                None => template_of(final(self).name@) is None,
            },
    {
        self.plugin = self.find_plugin();
        self.template = self.find_template();
    }
}

/// Adds to `current_list` the ids of the custom elements among `elements`
/// and below them, in the order of a walk that visits an element before its
/// children.
pub fn get_customs(elements: &Vec<Element>, current_list: Vec<u32>) -> (r: Vec<u32>)
    ensures
        r@ == current_list@ + custom_ids(nodes(elements@)),
    decreases elements,
{
    let ghost all = nodes(elements@);
    let mut list = current_list;
    let mut i: usize = 0;
    proof {
        assert(all.skip(0) =~= all);
    }
    while i < elements.len()
        invariant
            i <= elements.len(),
            all == nodes(elements@),
            list@ + custom_ids(all.skip(i as int)) == current_list@ + custom_ids(all),
        decreases elements.len() - i,
    {
        let element = &elements[i];
        let ghost before = list@;
        proof {
            element.lemma_children();
            assert(all.skip(i as int)[0] == element.model());
            assert(all.skip(i as int).drop_first() =~= all.skip(i + 1));
        }
        if element.kind.is_custom() {
            list.push(element.get_id());
        }
        list = get_customs(&element.elements, list);
        proof {
            let own = if element.model().kind is CustomElement {
                seq![element.model().id]
            } else {
                Seq::<u32>::empty()
            };
            assert(list@ =~= before + own + custom_ids(element.model().children));
            assert(list@ + custom_ids(all.skip(i + 1)) =~= before + (own + custom_ids(
                element.model().children,
            ) + custom_ids(all.skip(i + 1))));
        }
        i += 1;
    }
    proof {
        assert(list@ + Seq::<u32>::empty() =~= list@);
    }
    list
}

/// The custom elements of a list as jobs of the model.
pub open spec fn jobs(list: Seq<Custom>) -> Seq<Job> {
    Seq::new(list.len(), |i: int| list[i].job())
}

/// Expands the custom elements of the document with the ids `custom_elms`,
/// each as it stands now: its plugin runs, and then its template is set.
pub fn run_customs(target: &mut Parser, others: &Vec<Option<Parser>>, custom_elms: &Vec<u32>) -> (r:
    Result<(), ParseError>)
    ensures
        final(target).same_source(old(target)),
        agrees(
            r,
            final(target).doc(),
            run_round(
                old(target).doc(),
                old(target).metadata.frontmatter.model(),
                site(others@),
                custom_elms@,
            ),
        ),
{
    let ghost start = target.doc();
    let ghost own = target.metadata.frontmatter.model();
    let mut customs: Vec<Custom> = Vec::new();
    let mut i: usize = 0;
    proof {
        assert(custom_elms@.take(0) =~= Seq::empty());
        assert(jobs(customs@) =~= Seq::empty());
    }
    while i < custom_elms.len()
        invariant
            i <= custom_elms.len(),
            *target == *old(target),
            jobs(customs@) == jobs_of(target.doc().ast, custom_elms@.take(i as int)),
            forall|k: int| 0 <= k < customs.len() ==> (#[trigger] customs[k]).ready(target),
        decreases custom_elms.len() - i,
    {
        proof {
            assert(custom_elms@.take(i + 1).drop_last() =~= custom_elms@.take(i as int));
        }
        let id: u32 = custom_elms[i];
        if let Some(e) = target.ast.find(id) {
            if let Kind::CustomElement(c) = &e.kind {
                let mut custom = Custom::from_elm(c, e.get_id());
                custom.find();
                custom.pre_load(target);
                proof {
                    assert(jobs(customs@.push(custom)) =~= jobs(customs@).push(custom.job()));
                }
                customs.push(custom);
            }
        }
        i += 1;
    }
    proof {
        assert(custom_elms@.take(custom_elms.len() as int) =~= custom_elms@);
    }
    let ghost all = jobs(customs@);
    let mut k: usize = 0;
    while k < customs.len()
        invariant
            k <= customs.len(),
            all == jobs(customs@),
            all == jobs_of(start.ast, custom_elms@),
            start == old(target).doc(),
            own == old(target).metadata.frontmatter.model(),
            own == target.metadata.frontmatter.model(),
            target.same_source(old(target)),
            forall|j: int| 0 <= j < customs.len() ==> (#[trigger] customs[j]).ready(target),
            run_jobs(target.doc(), own, site(others@), all, k as int) == run_jobs(
                start,
                own,
                site(others@),
                all,
                0,
            ),
        decreases customs.len() - k,
    {
        let ghost before = target.doc();
        let ghost was = customs@;
        proof {
            assert(all[k as int] == customs[k as int].job());
            assert(customs[k as int].ready(target));
        }
        let ran = customs[k].run(target, others);
        proof {
            assert(customs@ =~= was);
        }
        match ran {
            Err(e) => {
                proof {
                    assert(run_job(before, own, site(others@), all[k as int]) == Err::<
                        Doc,
                        Fault,
                    >(e.fault()));
                    assert(run_jobs(before, own, site(others@), all, k as int) == Err::<
                        Doc,
                        Fault,
                    >(e.fault()));
                }
                return Err(e);
            },
            Ok(_) => {},
        }
        customs[k].insert_template(target);
        proof {
            assert(run_job(before, own, site(others@), all[k as int]) == Ok::<Doc, Fault>(
                target.doc(),
            ));
        }
        proof {
            assert forall|j: int| 0 <= j < customs.len() implies (#[trigger] customs[j]).ready(
                target,
            ) by {
                assert(was[j].ready(old(target)));
            }
        }
        k += 1;
    }
    Ok(())
}

/// Whether `id` is among `list`.
pub fn contains_id(list: &Vec<u32>, id: u32) -> (r: bool)
    ensures
        r == list@.contains(id),
{
    let mut i: usize = 0;
    while i < list.len()
        invariant
            i <= list.len(),
            forall|j: int| 0 <= j < i ==> list[j] != id,
        decreases list.len() - i,
    {
        if list[i] == id {
            return true;
        }
        i += 1;
    }
    false
}

/// The ids of `ids` that are not among `seen`.
pub fn new_ids(ids: &Vec<u32>, seen: &Vec<u32>) -> (r: Vec<u32>)
    ensures
        r@ == unseen(ids@, seen@),
{
    let mut out: Vec<u32> = Vec::new();
    let mut i: usize = 0;
    proof {
        assert(ids@.take(0) =~= Seq::empty());
    }
    while i < ids.len()
        invariant
            i <= ids.len(),
            out@ == unseen(ids@.take(i as int), seen@),
        decreases ids.len() - i,
    {
        proof {
            assert(ids@.take(i + 1).drop_last() =~= ids@.take(i as int));
        }
        if !contains_id(seen, ids[i]) {
            out.push(ids[i]);
        }
        i += 1;
    }
    proof {
        assert(ids@.take(ids.len() as int) =~= ids@);
    }
    out
}

/// Expands the custom elements of the document: those that it holds, then
/// those that this has brought into the tree, and so on, until a round
/// brings nothing new, for at most five rounds. A document that was parsed
/// without a custom element is handed back as it is. Fails where the document
/// has no ids left for the elements that a plugin makes.
pub fn parse_custom(target: Parser, others: &Vec<Option<Parser>>) -> (r: Result<Parser, ParseError>)
    ensures
        match r {
            Ok(p) => p.same_source(&target) && resolve(
                target.doc(),
                target.metadata.frontmatter.model(),
                site(others@),
            ) == Ok::<Doc, Fault>(p.doc()),
            Err(e) => resolve(
                target.doc(),
                target.metadata.frontmatter.model(),
                site(others@),
            ) == Err::<Doc, Fault>(e.fault()),
        },
        !target.has_custom ==> r == Ok::<Parser, ParseError>(target),
{
    if !target.has_custom {
        return Ok(target);
    }
    let ghost own = target.metadata.frontmatter.model();
    let ghost start = target.doc();
    let ghost given = target;
    let mut current = target;
    let mut old_elms: Vec<u32> = Vec::new();
    let mut rounds: usize = 5;
    loop
        invariant_except_break
            rounds <= 5,
            start.has_custom,
            given == target,
            start == target.doc(),
            own == target.metadata.frontmatter.model(),
            target.has_custom,
            current.same_source(&given),
            own == current.metadata.frontmatter.model(),
            match expand(current.doc(), own, site(others@), old_elms@, rounds as nat) {
                Ok((d, _)) => resolve(start, own, site(others@)) == Ok::<Doc, Fault>(d),
                Err(f) => resolve(start, own, site(others@)) == Err::<Doc, Fault>(f),
            },
        ensures
            resolve(start, own, site(others@)) == Ok::<Doc, Fault>(current.doc()),
            own == current.metadata.frontmatter.model(),
            current.same_source(&given),
        decreases rounds,
    {
        let new_elms = get_customs(&current.ast.elements, Vec::new());
        proof {
            assert(Seq::<u32>::empty() + custom_ids(nodes(current.ast.elements@)) =~= custom_ids(
                current.doc().ast,
            ));
        }
        let run_elms = new_ids(&new_elms, &old_elms);
        if rounds == 0 || run_elms.len() == 0 {
            break ;
        }
        let ghost before = current.doc();
        match run_customs(&mut current, others, &run_elms) {
            Err(e) => {
                proof {
                    assert(expand(before, own, site(others@), old_elms@, rounds as nat) is Err);
                }
                return Err(e);
            },
            Ok(_) => {},
        }
        old_elms = new_elms;
        rounds = rounds - 1;
    }
    Ok(current)
}

} // verus!
