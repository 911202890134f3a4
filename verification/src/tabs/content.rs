//! Reading the registry, and the page content a tab shows.
use vstd::prelude::*;

use super::history::kept_before_push;
use super::{
    is_not_found, lemma_tab_index, lemma_tab_update_wf, lemma_window_index, tab_index,
    transition_allowed, window_index, HistoryEntry, Tab, TabHistory, TabId, TabManager, TabState,
    Window, WindowId,
};
use crate::error::CoreError;

verus! {

impl<F: Copy> Default for TabManager<F> {
    /// An empty registry.
    fn default() -> (r: Self)
        ensures
            r.wf(),
            r.window_list().len() == 0,
            r.tab_list().len() == 0,
            r.closed_list().len() == 0,
    {
        TabManager::new()
    }
}

impl<F: Copy> TabManager<F> {
    /// The tab with id `tab_id`.
    pub fn tab(&self, tab_id: &TabId) -> (r: Result<&Tab, CoreError>)
        requires
            self.wf(),
        ensures
            ({
                let j = tab_index(self.tab_list(), tab_id@);
                match r {
                    Ok(t) => j >= 0 && *t == self.tab_list()[j],
                    Err(e) => j == -1 && is_not_found(e, "tab"@, tab_id@),
                }
            }),
    {
        proof {
            self.lemma_views();
        }
        let j = self.tab_lookup(tab_id)?;
        proof {
            lemma_tab_index(self.tabs@, j as int);
        }
        Ok(&self.tabs[j])
    }

    /// The window with id `window_id`.
    pub fn window(&self, window_id: &WindowId) -> (r: Result<&Window<F>, CoreError>)
        requires
            self.wf(),
        ensures
            ({
                let i = window_index(self.window_list(), window_id@);
                match r {
                    Ok(w) => i >= 0 && *w == self.window_list()[i],
                    Err(e) => i == -1 && is_not_found(e, "window"@, window_id@),
                }
            }),
    {
        proof {
            self.lemma_views();
        }
        match self.window_pos(window_id) {
            Some(i) => {
                proof {
                    lemma_window_index(self.windows@, i as int);
                }
                Ok(&self.windows[i])
            },
            None => {
                proof {
                    reveal_strlit("window");
                }
                Err(CoreError::NotFound("window", window_id.clone()))
            },
        }
    }

    /// The windows, in the order they were opened.
    pub fn windows(&self) -> (r: &Vec<Window<F>>)
        ensures
            r@ == self.window_list(),
    {
        proof {
            self.lemma_views();
        }
        &self.windows
    }

    /// How many tabs are open.
    pub fn tab_count(&self) -> (r: usize)
        ensures
            r == self.tab_list().len(),
    {
        proof {
            self.lemma_views();
        }
        self.tabs.len()
    }

    /// Give tab `tab_id` the page content of a closed or saved tab: url,
    /// title, pin and history.
    pub fn set_content(&mut self, tab_id: &TabId, url: String, title: String, pinned: bool, history: TabHistory) -> (r: Result<(), CoreError>)
        requires
            old(self).wf(),
        ensures
            final(self).wf(),
            final(self).window_list() == old(self).window_list(),
            final(self).closed_list() == old(self).closed_list(),
            final(self).clock() == old(self).clock(),
            ({
                let j = tab_index(old(self).tab_list(), tab_id@);
                match r {
                    Err(e) => j == -1 && is_not_found(e, "tab"@, tab_id@) && final(self).tab_list() == old(self).tab_list(),
                    Ok(()) => j >= 0 && final(self).tab_list() == old(self).tab_list().update(
                        j,
                        Tab { url, title, pinned, history, ..old(self).tab_list()[j] },
                    ),
                }
            }),
    {
        proof {
            self.lemma_views();
        }
        let j = self.tab_lookup(tab_id)?;
        proof {
            lemma_tab_index(self.tabs@, j as int);
        }
        let ghost ts0 = self.tabs@;
        self.tabs[j].url = url;
        self.tabs[j].title = title;
        self.tabs[j].pinned = pinned;
        self.tabs[j].history = history;
        proof {
            assert(self.tabs@ =~= ts0.update(j as int, self.tabs@[j as int]));
            lemma_tab_update_wf(self.windows@, ts0, j as int, self.tabs@[j as int]);
            self.lemma_views();
        }
        Ok(())
    }

    /// The engine committed a navigation of tab `tab_id` to `url`: the tab
    /// shows `url` and its history gains an untitled entry for it.
    pub fn commit_navigation(&mut self, tab_id: &TabId, url: String) -> (r: Result<(), CoreError>)
        requires
            old(self).wf(),
        ensures
            final(self).wf(),
            final(self).window_list() == old(self).window_list(),
            final(self).closed_list() == old(self).closed_list(),
            final(self).clock() == old(self).clock(),
            ({
                let j = tab_index(old(self).tab_list(), tab_id@);
                let t = old(self).tab_list()[j];
                let t2 = final(self).tab_list()[j];
                match r {
                    Err(e) => j == -1 && is_not_found(e, "tab"@, tab_id@) && final(self).tab_list() == old(self).tab_list(),
                    Ok(()) => {
                        &&& j >= 0
                        &&& final(self).tab_list() == old(self).tab_list().update(j, t2)
                        &&& t2 == Tab { url, history: t2.history, ..t }
                        &&& t2.history.entries@.len() == kept_before_push(t.history) + 1
                        &&& t2.history.entries@.drop_last() == t.history.entries@.take(kept_before_push(t.history))
                        &&& t2.history.entries@.last().url == url
                        &&& t2.history.entries@.last().title@ == Seq::<char>::empty()
                        &&& t2.history.cursor == t2.history.entries@.len() - 1
                    },
                }
            }),
    {
        proof {
            self.lemma_views();
        }
        let j = self.tab_lookup(tab_id)?;
        proof {
            lemma_tab_index(self.tabs@, j as int);
        }
        let ghost ts0 = self.tabs@;
        let entry_url = url.clone();
        self.tabs[j].url = url;
        self.tabs[j].history.push(entry_url, String::new());
        proof {
            assert(self.tabs@ =~= ts0.update(j as int, self.tabs@[j as int]));
            lemma_tab_update_wf(self.windows@, ts0, j as int, self.tabs@[j as int]);
            self.lemma_views();
        }
        Ok(())
    }
    /// The engine finished loading tab `tab_id`: the tab becomes `Active` (a
    /// lifecycle move, which fails for a suspended tab), takes `title` when one
    /// is given, and its url is returned.
    pub fn finish_load(&mut self, tab_id: &TabId, title: Option<String>) -> (r: Result<String, CoreError>)
        requires
            old(self).wf(),
        ensures
            final(self).wf(),
            final(self).window_list() == old(self).window_list(),
            final(self).closed_list() == old(self).closed_list(),
            final(self).clock() == old(self).clock(),
            ({
                let j = tab_index(old(self).tab_list(), tab_id@);
                let t = old(self).tab_list()[j];
                match r {
                    Err(e) => {
                        &&& final(self).tab_list() == old(self).tab_list()
                        &&& (j == -1 && is_not_found(e, "tab"@, tab_id@) || j >= 0 && t.state != TabState::Active
                            && !transition_allowed(t.state, TabState::Active) && e is InvalidArgument)
                    },
                    Ok(u) => {
                        &&& j >= 0
                        &&& (t.state == TabState::Active || transition_allowed(t.state, TabState::Active))
                        &&& u == t.url
                        &&& final(self).tab_list() == old(self).tab_list().update(
                            j,
                            Tab {
                                state: TabState::Active,
                                title: match title {
                                    Some(x) => x,
                                    None => t.title,
                                },
                                ..t
                            },
                        )
                    },
                }
            }),
    {
        proof {
            self.lemma_views();
        }
        let j = self.tab_lookup(tab_id)?;
        proof {
            lemma_tab_index(self.tabs@, j as int);
        }
        if self.tabs[j].state != TabState::Active {
            self.transition(tab_id, TabState::Active)?;
        }
        proof {
            self.lemma_views();
        }
        let ghost ts0 = self.tabs@;
        if let Some(t) = title {
            self.tabs[j].title = t;
        }
        proof {
            assert(self.tabs@ =~= ts0.update(j as int, self.tabs@[j as int]));
            lemma_tab_update_wf(self.windows@, ts0, j as int, self.tabs@[j as int]);
            self.lemma_views();
        }
        Ok(self.tabs[j].url.clone())
    }
}

} // verus!
