//! The planner as a whole: what is kept from one run to the next.

use crate::manager::{ListManager, ManagerEvent, ManagerEventView, ManagerView};
use crate::reading::lemma_round_trip;
use crate::record::{decode, planner_text, restore};
use crate::store::{read_planner, write_planner};
use crate::text::chars_of;
use vstd::prelude::*;

verus! {

/// What the planner holds: its lists, and two fields of the surface that are
/// kept with them.
pub ghost struct PlannerView {
    pub add_new_list: bool,
    pub list_manager: ManagerView,
    pub new_list_name: Seq<char>,
}

impl PlannerView {
    /// The lists are well formed.
    pub open spec fn wf(self) -> bool {
        self.list_manager.wf()
    }

    /// The planner of a first run: no lists, every flag false, every text empty.
    pub open spec fn empty() -> PlannerView {
        PlannerView {
            add_new_list: false,
            list_manager: ManagerView::empty(),
            new_list_name: Seq::empty(),
        }
    }

    /// The planner after one event of its surface.
    pub open spec fn update(self, event: ManagerEventView) -> PlannerView {
        PlannerView { list_manager: self.list_manager.show(event), ..self }
    }
}

/// The planner. One lives for the length of a run: made at the start from
/// what the last run kept, or empty, and written out once at the end.
#[derive(Debug)]
pub struct TemplateApp {
    add_new_list: bool,
    list_manager: ListManager,
    new_list_name: String,
}

impl View for TemplateApp {
    type V = PlannerView;

    closed spec fn view(&self) -> PlannerView {
        PlannerView {
            add_new_list: self.add_new_list,
            list_manager: self.list_manager@,
            new_list_name: self.new_list_name@,
        }
    }
}

impl Default for TemplateApp {
    /// The empty planner.
    fn default() -> (app: TemplateApp)
        ensures
            app.wf(),
            app@ == PlannerView::empty(),
    {
        TemplateApp {
            add_new_list: false,
            list_manager: ListManager::new(),
            new_list_name: String::new(),
        }
    }
}

impl TemplateApp {
    /// The lists are well formed.
    pub open spec fn wf(&self) -> bool {
        self@.wf()
    }

    /// The planner to start a run with: the one that the kept text holds,
    /// and the empty planner where nothing was kept or the text holds no
    /// planner.
    pub fn new(stored: Option<&str>) -> (app: TemplateApp)
        ensures
            app.wf(),
            app@ == restore(
                match stored {
                    Some(text) => Some(text@),
                    None => None,
                },
            ),
    {
        match stored {
            Some(text) => match TemplateApp::load(text) {
                Some(app) => app,
                None => TemplateApp::default(),
            },
            None => TemplateApp::default(),
        }
    }

    /// The planner as text, to be kept until the next run. Reading the text
    /// gives the planner back.
    pub fn save(&self) -> (text: String)
        requires
            self.wf(),
        ensures
            text@ == planner_text(self@),
            decode(text@) == Some(self@),
    {
        let mut text = String::new();
        write_planner(&mut text, self);
        proof {
            assert(text@ =~= planner_text(self@));
            lemma_round_trip(self@);
        }
        text
    }

    /// The planner that a kept text holds, if it holds one: the text must be
    /// one planner record from its first character to its last.
    pub fn load(text: &str) -> (app: Option<TemplateApp>)
        ensures
            match app {
                Some(app) => app.wf() && decode(text@) == Some(app@),
                None => decode(text@) is None,
            },
    {
        let buf = chars_of(text);
        assert(buf@.skip(0) =~= text@);
        match read_planner(&buf, 0) {
            Some((app, next)) => {
                if next == buf.len() {
                    Some(app)
                } else {
                    None
                }
            },
            None => None,
        }
    }

    /// A planner with all three fields given.
    pub(crate) fn from_parts(
        add_new_list: bool,
        list_manager: ListManager,
        new_list_name: String,
    ) -> (app: TemplateApp)
        requires
            list_manager.wf(),
        ensures
            app.wf(),
            app@ == (PlannerView {
                add_new_list,
                list_manager: list_manager@,
                new_list_name: new_list_name@,
            }),
    {
        TemplateApp { add_new_list, list_manager, new_list_name }
    }

    /// Applies one event of the surface to the lists.
    pub fn update(&mut self, event: ManagerEvent)
        requires
            old(self).wf(),
            event@.wf(),
        ensures
            final(self).wf(),
            final(self)@ == old(self)@.update(event@),
    {
        self.list_manager.show(event);
    }

    /// The lists.
    pub fn list_manager(&self) -> (manager: &ListManager)
        ensures
            manager@ == self@.list_manager,
    {
        &self.list_manager
    }

    /// A flag of the surface that is kept with the lists.
    pub fn add_new_list(&self) -> (flag: bool)
        ensures
            flag == self@.add_new_list,
    {
        self.add_new_list
    }

    /// A text of the surface that is kept with the lists.
    pub fn new_list_name(&self) -> (text: &String)
        ensures
            text@ == self@.new_list_name,
    {
        &self.new_list_name
    }
}

} // verus!
