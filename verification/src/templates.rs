//! Saved capture configurations: saving one under a name, deleting by
//! name, and importing a list. Reading and writing the template file is
//! the caller's.
use vstd::prelude::*;
use crate::models::CaptureTemplate;
use crate::text::same_text;

verus! {

/// The most templates kept.
pub const MAX_TEMPLATES: usize = 50;

/// The index of the first template of the name, or -1.
pub open spec fn first_named(v: Seq<CaptureTemplate>, name: Seq<char>) -> int
    decreases v.len(),
{
    if v.len() == 0 {
        -1
    } else {
        let k = first_named(v.drop_last(), name);
        if k >= 0 {
            k
        } else if v.last().name@ == name {
            v.len() - 1
        } else {
            -1
        }
    }
}

proof fn lemma_first_named(v: Seq<CaptureTemplate>, name: Seq<char>)
    ensures
        -1 <= first_named(v, name) < v.len(),
        first_named(v, name) >= 0 ==> v[first_named(v, name)].name@ == name,
        first_named(v, name) == -1 ==> forall|j: int| 0 <= j < v.len() ==> (#[trigger] v[j]).name@ != name,
    decreases v.len(),
{
    if v.len() > 0 {
        lemma_first_named(v.drop_last(), name);
        assert forall|j: int| 0 <= j < v.len() - 1 implies #[trigger] v[j] == v.drop_last()[j] by {}
    }
}

proof fn lemma_first_named_prefix(v: Seq<CaptureTemplate>, name: Seq<char>, i: int, j: int)
    requires
        0 <= i <= j <= v.len(),
        first_named(v.take(i), name) >= 0,
    ensures
        first_named(v.take(j), name) == first_named(v.take(i), name),
    decreases j - i,
{
    if j > i {
        lemma_first_named_prefix(v, name, i, j - 1);
        assert(v.take(j).drop_last() =~= v.take(j - 1));
    }
}

fn find_named(v: &Vec<CaptureTemplate>, name: &str) -> (i: usize)
    ensures
        i <= v@.len(),
        i == v@.len() <==> first_named(v@, name@) == -1,
        i < v@.len() ==> first_named(v@, name@) == i,
{
    let ghost w = v@;
    let mut i: usize = 0;
    assert(w.take(0) =~= Seq::<CaptureTemplate>::empty());
    while i < v.len()
        invariant
            i <= v@.len(),
            w == v@,
            first_named(w.take(i as int), name@) == -1,
        ensures
            i <= v@.len(),
            first_named(w.take(i as int), name@) == -1,
            i < v@.len() ==> w[i as int].name@ == name@,
        decreases v.len() - i,
    {
        if same_text(v[i].name.as_str(), name) {
            break;
        }
        assert(w.take(i + 1).drop_last() =~= w.take(i as int));
        i = i + 1;
    }
    proof {
        if i < v.len() {
            assert(w.take(i + 1).drop_last() =~= w.take(i as int));
            lemma_first_named_prefix(w, name@, i + 1, w.len() as int);
        }
        assert(w.take(w.len() as int) =~= w);
    }
    i
}

/// The settings a template was saved with.
pub open spec fn holds_settings(
    t: CaptureTemplate,
    interface_name: Seq<char>,
    bpf_filter: Seq<char>,
    promiscuous: bool,
    description: Option<Seq<char>>,
    updated_at: u64,
) -> bool {
    &&& t.interface_name@ == interface_name
    &&& t.bpf_filter@ == bpf_filter
    &&& t.promiscuous == promiscuous
    &&& crate::protocol::parser::opt_chars(t.description) == description
    &&& t.updated_at == updated_at
}

/// Saves a template at `now`: the first template of the name takes the new
/// settings, keeping its name and creation time; otherwise a new template
/// is added, refused when there are already as many as allowed.
pub fn save_capture_template(
    templates: &mut Vec<CaptureTemplate>,
    name: String,
    interface_name: String,
    bpf_filter: String,
    promiscuous: bool,
    description: Option<String>,
    now: u64,
) -> (r: Result<(), String>)
    ensures
        r is Err <==> first_named(old(templates)@, name@) == -1 && old(templates)@.len() >= MAX_TEMPLATES,
        r matches Err(m) ==> m@ == "模板数量已达上限，请删除旧模板"@ && final(templates)@ == old(templates)@,
        r is Ok ==> ({
            let i = first_named(old(templates)@, name@);
            if i >= 0 {
                &&& final(templates)@.len() == old(templates)@.len()
                &&& forall|j: int| 0 <= j < old(templates)@.len() && j != i ==> #[trigger] final(templates)@[j] == old(templates)@[j]
                &&& final(templates)@[i].name == old(templates)@[i].name
                &&& final(templates)@[i].created_at == old(templates)@[i].created_at
                &&& holds_settings(final(templates)@[i], interface_name@, bpf_filter@, promiscuous, crate::protocol::parser::opt_chars(description), now)
            } else {
                &&& final(templates)@.drop_last() == old(templates)@
                &&& final(templates)@.len() == old(templates)@.len() + 1
                &&& final(templates)@.last().name == name
                &&& final(templates)@.last().created_at == now
                &&& holds_settings(final(templates)@.last(), interface_name@, bpf_filter@, promiscuous, crate::protocol::parser::opt_chars(description), now)
            }
        }),
{
    let i = find_named(templates, name.as_str());
    proof {
        lemma_first_named(templates@, name@);
    }
    if i < templates.len() {
        let t = &templates[i];
        let updated = CaptureTemplate {
            name: t.name.clone(),
            interface_name,
            bpf_filter,
            promiscuous,
            description,
            created_at: t.created_at,
            updated_at: now,
        };
        templates.set(i, updated);
        Ok(())
    } else {
        if templates.len() >= MAX_TEMPLATES {
            return Err(String::from_str("模板数量已达上限，请删除旧模板"));
        }
        let ghost before = templates@;
        templates.push(
            CaptureTemplate { name, interface_name, bpf_filter, promiscuous, description, created_at: now, updated_at: now },
        );
        assert(templates@.drop_last() =~= before);
        Ok(())
    }
}

/// The templates without those of the name, in order.
pub open spec fn without_named(v: Seq<CaptureTemplate>, name: Seq<char>) -> Seq<CaptureTemplate>
    decreases v.len(),
{
    if v.len() == 0 {
        Seq::empty()
    } else if v.last().name@ == name {
        without_named(v.drop_last(), name)
    } else {
        without_named(v.drop_last(), name).push(v.last())
    }
}

/// Deletes the templates of the name.
pub fn delete_capture_template(templates: Vec<CaptureTemplate>, name: &str) -> (r: Vec<CaptureTemplate>)
    ensures
        r@ == without_named(templates@, name@),
{
    let ghost v = templates@;
    let mut templates = templates;
    let mut kept: Vec<CaptureTemplate> = Vec::new();
    let mut rev: Vec<CaptureTemplate> = Vec::new();
    while templates.len() > 0
        invariant
            v == templates@ + rev@.reverse(),
        decreases templates.len(),
    {
        let ghost tb = templates@;
        let ghost rb = rev@;
        let t = templates.pop().unwrap();
        rev.push(t);
        assert(tb =~= templates@.push(t));
        assert(rev@.reverse() =~= seq![t] + rb.reverse());
        assert(v =~= templates@ + rev@.reverse());
    }
    assert(v =~= rev@.reverse());
    let ghost n: int = v.len() as int;
    assert(v.skip(0) =~= v);
    assert(v.take(0) =~= Seq::<CaptureTemplate>::empty());
    while rev.len() > 0
        invariant
            rev@.len() <= n,
            n == v.len(),
            rev@.reverse() == v.skip(n - rev@.len()),
            kept@ == without_named(v.take(n - rev@.len()), name@),
        decreases rev.len(),
    {
        let ghost i: int = n - rev@.len();
        let ghost rb = rev@;
        let t = rev.pop().unwrap();
        proof {
            assert(rb =~= rev@.push(t));
            assert(rb.reverse()[0] == t);
            assert(v.skip(i)[0] == v[i]);
            assert(rev@.reverse() =~= rb.reverse().drop_first());
            assert(v.skip(i + 1) =~= v.skip(i).drop_first());
            assert(v.take(i + 1).drop_last() =~= v.take(i));
            assert(v.take(i + 1).last() == t);
        }
        if !same_text(t.name.as_str(), name) {
            kept.push(t);
        }
    }
    assert(v.take(n) =~= v);
    kept
}

/// The templates an import adds, in order: each one whose name is not yet
/// taken, until there are as many as allowed.
pub open spec fn imported_templates(present: Seq<CaptureTemplate>, incoming: Seq<CaptureTemplate>) -> Seq<CaptureTemplate>
    decreases incoming.len(),
{
    if incoming.len() == 0 {
        Seq::empty()
    } else {
        let before = imported_templates(present, incoming.drop_last());
        let t = incoming.last();
        let all = present + before;
        if first_named(all, t.name@) >= 0 {
            before
        } else if all.len() >= MAX_TEMPLATES {
            before
        } else {
            before.push(t)
        }
    }
}

proof fn lemma_imported_len(present: Seq<CaptureTemplate>, incoming: Seq<CaptureTemplate>)
    ensures
        imported_templates(present, incoming).len() <= incoming.len(),
    decreases incoming.len(),
{
    if incoming.len() > 0 {
        lemma_imported_len(present, incoming.drop_last());
    }
}

/// Adds the imported templates whose names are not taken, up to the limit;
/// returns how many were added.
pub fn import_templates(existing: &mut Vec<CaptureTemplate>, incoming: Vec<CaptureTemplate>) -> (n: usize)
    ensures
        final(existing)@ == old(existing)@ + imported_templates(old(existing)@, incoming@),
        n == imported_templates(old(existing)@, incoming@).len(),
{
    let ghost v = incoming@;
    let ghost start = existing@;
    let mut incoming = incoming;
    let mut rev: Vec<CaptureTemplate> = Vec::new();
    while incoming.len() > 0
        invariant
            v == incoming@ + rev@.reverse(),
        decreases incoming.len(),
    {
        let ghost tb = incoming@;
        let ghost rb = rev@;
        let t = incoming.pop().unwrap();
        rev.push(t);
        assert(tb =~= incoming@.push(t));
        assert(rev@.reverse() =~= seq![t] + rb.reverse());
        assert(v =~= incoming@ + rev@.reverse());
    }
    assert(v =~= rev@.reverse());
    let ghost n: int = v.len() as int;
    assert(v.skip(0) =~= v);
    assert(v.take(0) =~= Seq::<CaptureTemplate>::empty());
    let mut count: usize = 0;
    assert(start + imported_templates(start, v.take(0)) =~= start);
    while rev.len() > 0
        invariant
            rev@.len() <= n,
            n == v.len(),
            rev@.reverse() == v.skip(n - rev@.len()),
            existing@ == start + imported_templates(start, v.take(n - rev@.len())),
            count == imported_templates(start, v.take(n - rev@.len())).len(),
            count <= n - rev@.len(),
        decreases rev.len(),
    {
        let ghost i: int = n - rev@.len();
        let ghost rb = rev@;
        let t = rev.pop().unwrap();
        proof {
            assert(rb =~= rev@.push(t));
            assert(rb.reverse()[0] == t);
            assert(v.skip(i)[0] == v[i]);
            assert(rev@.reverse() =~= rb.reverse().drop_first());
            assert(v.skip(i + 1) =~= v.skip(i).drop_first());
            assert(v.take(i + 1).drop_last() =~= v.take(i));
            assert(v.take(i + 1).last() == t);
        }
        let k = find_named(existing, t.name.as_str());
        if k == existing.len() {
            if existing.len() < MAX_TEMPLATES {
                let ghost eb = existing@;
                existing.push(t);
                count = count + 1;
                assert(existing@ =~= start + imported_templates(start, v.take(i)).push(v[i]));
            }
        }
    }
    assert(v.take(n) =~= v);
    count
}

} // verus!
