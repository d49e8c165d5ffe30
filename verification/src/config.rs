//! The static render configuration: per-workspace icons, the frame template
//! and the per-entry body template.
use crate::keyed::{
    lemma_map_of_absent, lemma_map_of_index, map_of, unique_keys,
};
use crate::text::copy_chars;
use vstd::prelude::*;

verus! {

/// Mathematical image of a `Config`.
#[verifier::ext_equal]
pub struct ConfigView {
    pub workspaces: Seq<(u8, Seq<char>)>,
    pub template: Seq<char>,
    pub body_template: Seq<char>,
}

/// Key function of the icon table.
pub open spec fn icon_key() -> spec_fn((u8, Seq<char>)) -> u8 {
    |p: (u8, Seq<char>)| p.0
}

impl ConfigView {
    /// The icon table as a map from workspace id to icon.
    pub open spec fn icon_map(self) -> Map<u8, (u8, Seq<char>)> {
        map_of(self.workspaces, icon_key())
    }

    /// Workspace ids in the icon table are unique.
    pub open spec fn wf(self) -> bool {
        unique_keys(self.workspaces, icon_key())
    }
}

/// The render configuration: which workspace slots exist and what the
/// templates look like.  The icon table defines the complete set of slots
/// ever rendered, whatever workspaces currently exist.
pub struct Config {
    pub workspaces: Vec<(u8, Vec<char>)>,
    pub template: Vec<char>,
    pub body_template: Vec<char>,
}

impl View for Config {
    type V = ConfigView;

    open spec fn view(&self) -> ConfigView {
        ConfigView {
            workspaces: self.workspaces@.map_values(|p: (u8, Vec<char>)| (p.0, p.1@)),
            template: self.template@,
            body_template: self.body_template@,
        }
    }
}

impl Config {
    /// Builds a configuration from an icon list and the two templates.
    /// A later icon for the same id overwrites an earlier one.
    pub fn new(workspaces: Vec<(u8, Vec<char>)>, template: Vec<char>, body_template: Vec<char>)
        -> (cfg: Config)
        ensures
            cfg@.wf(),
            cfg@.template == template@,
            cfg@.body_template == body_template@,
            cfg@.icon_map() == map_of(
                workspaces@.map_values(|p: (u8, Vec<char>)| (p.0, p.1@)),
                icon_key(),
            ),
    {
        let ghost pviews = workspaces@.map_values(|p: (u8, Vec<char>)| (p.0, p.1@));
        let mut table: Vec<(u8, Vec<char>)> = Vec::new();
        proof {
            assert(table@.map_values(|p: (u8, Vec<char>)| (p.0, p.1@)) =~= Seq::<(
                u8,
                Seq<char>,
            )>::empty());
            assert(pviews.take(0) =~= Seq::<(u8, Seq<char>)>::empty());
        }
        let mut i: usize = 0;
        while i < workspaces.len()
            invariant
                0 <= i <= workspaces@.len(),
                pviews == workspaces@.map_values(|p: (u8, Vec<char>)| (p.0, p.1@)),
                unique_keys(table@.map_values(|p: (u8, Vec<char>)| (p.0, p.1@)), icon_key()),
                map_of(table@.map_values(|p: (u8, Vec<char>)| (p.0, p.1@)), icon_key()) == map_of(
                    pviews.take(i as int),
                    icon_key(),
                ),
            decreases workspaces@.len() - i,
        {
            let id = workspaces[i].0;
            let icon = copy_chars(&workspaces[i].1);
            proof {
                assert(pviews.take(i as int + 1).drop_last() =~= pviews.take(i as int));
                assert(pviews.take(i as int + 1).last() == (id, icon@));
            }
            upsert_icon(&mut table, id, icon);
            i = i + 1;
        }
        proof {
            assert(pviews.take(workspaces@.len() as int) =~= pviews);
        }
        Config { workspaces: table, template, body_template }
    }

    /// The icon configured for a workspace id, if any.
    pub fn get_icon(&self, id: u8) -> (r: Option<&Vec<char>>)
        requires
            self@.wf(),
        ensures
            match r {
                Option::Some(icon) => self@.icon_map().contains_key(id) && icon@
                    == self@.icon_map()[id].1,
                Option::None => !self@.icon_map().contains_key(id),
            },
    {
        let ghost tviews = self.workspaces@.map_values(|p: (u8, Vec<char>)| (p.0, p.1@));
        let mut i: usize = 0;
        while i < self.workspaces.len()
            invariant
                0 <= i <= self.workspaces.len(),
                tviews == self.workspaces@.map_values(|p: (u8, Vec<char>)| (p.0, p.1@)),
                self@.workspaces == tviews,
                unique_keys(tviews, icon_key()),
                forall|k: int| 0 <= k < i ==> (#[trigger] tviews[k]).0 != id,
            decreases self.workspaces.len() - i,
        {
            if self.workspaces[i].0 == id {
                proof {
                    lemma_map_of_index(tviews, icon_key(), i as int);
                }
                return Option::Some(&self.workspaces[i].1);
            }
            i = i + 1;
        }
        proof {
            lemma_map_of_absent(tviews, icon_key(), id);
        }
        Option::None
    }
}

/// Inserts or replaces the icon for `id`.
fn upsert_icon(table: &mut Vec<(u8, Vec<char>)>, id: u8, icon: Vec<char>)
    requires
        unique_keys(old(table)@.map_values(|p: (u8, Vec<char>)| (p.0, p.1@)), icon_key()),
    ensures
        unique_keys(final(table)@.map_values(|p: (u8, Vec<char>)| (p.0, p.1@)), icon_key()),
        map_of(final(table)@.map_values(|p: (u8, Vec<char>)| (p.0, p.1@)), icon_key()) == map_of(
            old(table)@.map_values(|p: (u8, Vec<char>)| (p.0, p.1@)),
            icon_key(),
        ).insert(id, (id, icon@)),
{
    let ghost tviews = table@.map_values(|p: (u8, Vec<char>)| (p.0, p.1@));
    let ghost pv = (id, icon@);
    let mut i: usize = 0;
    while i < table.len()
        invariant
            0 <= i <= table.len(),
            table@ == old(table)@,
            tviews == table@.map_values(|p: (u8, Vec<char>)| (p.0, p.1@)),
            unique_keys(tviews, icon_key()),
            icon@ == pv.1 && id == pv.0,
            forall|k: int| 0 <= k < i ==> (#[trigger] tviews[k]).0 != id,
        decreases table.len() - i,
    {
        if table[i].0 == id {
            proof {
                crate::keyed::lemma_map_of_update(tviews, icon_key(), i as int, pv);
            }
            table[i] = (id, icon);
            proof {
                assert(table@.map_values(|p: (u8, Vec<char>)| (p.0, p.1@)) =~= tviews.update(
                    i as int,
                    pv,
                ));
            }
            return ;
        }
        i = i + 1;
    }
    proof {
        lemma_map_of_absent(tviews, icon_key(), id);
        crate::keyed::lemma_map_of_push(tviews, icon_key(), pv);
    }
    table.push((id, icon));
    proof {
        assert(table@.map_values(|p: (u8, Vec<char>)| (p.0, p.1@)) =~= tviews.push(pv));
    }
}

} // verus!
