//! The page of tracked channels.

use vstd::prelude::*;
use vstd::string::*;
use crate::api::{ChannelRow, DbChannel, channel_rows};
use crate::pages::{PageContext, Render, RenderError, Site, rendered};
use crate::sqlite::{Tables, get_db_channels, is_active, lists_active_channels};
use crate::text::{join, join_text};

verus! {

/// The page of tracked channels.
pub struct Page {}

/// Some channel is active.
pub open spec fn has_active(tables: Tables) -> bool {
    exists|id: Seq<char>| #[trigger] is_active(tables, id)
}

/// Every configured channel is active.
pub open spec fn all_tracked(tables: Tables, oshi: Seq<(String, String)>) -> bool {
    forall|i: int| 0 <= i < oshi.len() ==> is_active(tables, (#[trigger] oshi[i]).1@)
}

/// The plain-text entry of a channel under its alias.
pub open spec fn channel_text(alias: Seq<char>, row: ChannelRow) -> Seq<char> {
    alias + "\n  name: "@ + row.name + "\n  id:   "@ + row.id
}

/// The JSON object of a channel under its alias.
pub open spec fn channel_json(alias: Seq<char>, row: ChannelRow) -> Seq<char> {
    "{\"alias\": \""@ + alias + "\", \"name\": \""@ + row.name + "\", \"id\": \""@ + row.id
        + "\"}"@
}

/// The plain-text entries of the configured channels, in the order of the
/// configuration.
pub open spec fn text_entries(tables: Tables, oshi: Seq<(String, String)>) -> Seq<Seq<char>> {
    Seq::new(oshi.len(), |i: int| channel_text(oshi[i].0@, tables.channels[oshi[i].1@]))
}

/// The JSON objects of the configured channels, in the order of the
/// configuration.
pub open spec fn json_entries(tables: Tables, oshi: Seq<(String, String)>) -> Seq<Seq<char>> {
    Seq::new(oshi.len(), |i: int| channel_json(oshi[i].0@, tables.channels[oshi[i].1@]))
}

/// The page in plain text: a fixed sentence while no channel is active, and
/// otherwise one entry for each configured channel. Where a configured
/// channel is not active, there is no page.
pub open spec fn list_text(tables: Tables, oshi: Seq<(String, String)>) -> Result<
    Seq<char>,
    RenderError,
> {
    if !has_active(tables) {
        Ok("no channels found"@)
    } else if !all_tracked(tables, oshi) {
        Err(RenderError::UntrackedChannel)
    } else {
        Ok(join(text_entries(tables, oshi), "\n"@))
    }
}

/// The page as JSON, under the same conditions.
pub open spec fn list_json(tables: Tables, oshi: Seq<(String, String)>) -> Result<
    Seq<char>,
    RenderError,
> {
    if !has_active(tables) {
        Ok("{\"channels\": []}"@)
    } else if !all_tracked(tables, oshi) {
        Err(RenderError::UntrackedChannel)
    } else {
        Ok("{\"channels\": ["@ + join(json_entries(tables, oshi), ","@) + "]}"@)
    }
}

/// The active channel with this id.
fn find_active<'a>(channels: &'a Vec<DbChannel>, id: &String, Ghost(tables): Ghost<Tables>) -> (r: Option<
    &'a DbChannel,
>)
    requires
        lists_active_channels(tables, channel_rows(channels@)),
    ensures
        r matches Some(c) ==> is_active(tables, id@) && c@ == tables.channels[id@],
        r is None ==> !is_active(tables, id@),
{
    let ghost rows = channel_rows(channels@);
    let mut j: usize = 0;
    while j < channels.len()
        invariant
            j <= channels.len(),
            rows == channel_rows(channels@),
            lists_active_channels(tables, rows),
            forall|k: int| 0 <= k < j ==> (#[trigger] rows[k]).id != id@,
        decreases channels.len() - j,
    {
        if channels[j].id == *id {
            assert(rows[j as int] == channels[j as int]@);
            assert(is_active(tables, rows[j as int].id));
            return Some(&channels[j]);
        }
        assert(rows[j as int].id != id@);
        j += 1;
    }
    None
}

/// The plain-text entry of a channel under its alias.
fn format_channel(alias: &str, channel: &DbChannel) -> (entry: String)
    ensures
        entry@ == channel_text(alias@, channel@),
{
    let mut entry = String::from_str(alias);
    entry.append("\n  name: ");
    entry.append(channel.name.as_str());
    entry.append("\n  id:   ");
    entry.append(channel.id.as_str());
    entry
}

/// The JSON object of a channel under its alias.
fn format_channel_json(alias: &str, channel: &DbChannel) -> (entry: String)
    ensures
        entry@ == channel_json(alias@, channel@),
{
    let mut entry = String::from_str("{\"alias\": \"");
    entry.append(alias);
    entry.append("\", \"name\": \"");
    entry.append(channel.name.as_str());
    entry.append("\", \"id\": \"");
    entry.append(channel.id.as_str());
    entry.append("\"}");
    entry
}

/// The entries of the configured channels in one of the two formats, or
/// nothing while no channel is active.
fn entries(site: &Site, as_json: bool) -> (r: Result<Option<Vec<String>>, RenderError>)
    requires
        site.wf(),
    ensures
        r matches Ok(None) ==> !has_active(site.store@),
        r matches Ok(Some(list)) ==> has_active(site.store@) && all_tracked(
            site.store@,
            site.config.oshi@,
        ) && list@.map_values(|s: String| s@) == (if as_json {
            json_entries(site.store@, site.config.oshi@)
        } else {
            text_entries(site.store@, site.config.oshi@)
        }),
        r is Err ==> has_active(site.store@) && !all_tracked(site.store@, site.config.oshi@),
{
    let ghost tables = site.store@;
    let ghost oshi = site.config.oshi@;
    let channels = get_db_channels(&site.store);
    if channels.len() == 0 {
        assert(!has_active(tables));
        return Ok(None);
    }
    proof {
        assert(is_active(tables, channel_rows(channels@)[0].id));
        assert(has_active(tables));
    }
    let mut list: Vec<String> = Vec::new();
    let mut i: usize = 0;
    while i < site.config.oshi.len()
        invariant
            i <= site.config.oshi.len(),
            tables == site.store@,
            oshi == site.config.oshi@,
            lists_active_channels(tables, channel_rows(channels@)),
            has_active(tables),
            list.len() == i,
            forall|k: int| 0 <= k < i ==> is_active(tables, (#[trigger] oshi[k]).1@),
            forall|k: int|
                0 <= k < i ==> (#[trigger] list[k])@ == (if as_json {
                    channel_json(oshi[k].0@, tables.channels[oshi[k].1@])
                } else {
                    channel_text(oshi[k].0@, tables.channels[oshi[k].1@])
                }),
        decreases site.config.oshi.len() - i,
    {
        let alias = &site.config.oshi[i].0;
        match find_active(&channels, &site.config.oshi[i].1, Ghost(tables)) {
            Some(channel) => {
                if as_json {
                    list.push(format_channel_json(alias.as_str(), channel));
                } else {
                    list.push(format_channel(alias.as_str(), channel));
                }
            },
            None => {
                assert(!is_active(tables, oshi[i as int].1@));
                return Err(RenderError::UntrackedChannel);
            },
        }
        i += 1;
    }
    proof {
        if as_json {
            assert(list@.map_values(|s: String| s@) =~= json_entries(tables, oshi));
        } else {
            assert(list@.map_values(|s: String| s@) =~= text_entries(tables, oshi));
        }
    }
    Ok(Some(list))
}

impl Render for Page {
    /// The configured channels, one entry each, in plain text.
    fn render_text<F: Fn(&str) -> (String, String)>(
        &self,
        site: &mut Site,
        ctx: PageContext,
        humanize: &F,
    ) -> (r: Result<String, RenderError>)
        ensures
            *final(site) == *old(site),
            rendered(r) == list_text(old(site).store@, old(site).config.oshi@),
    {
        match entries(site, false) {
            Ok(Some(list)) => Ok(join_text(&list, "\n")),
            Ok(None) => Ok(String::from_str("no channels found")),
            Err(e) => Err(e),
        }
    }

    /// The configured channels, as JSON.
    fn render_json(&self, site: &mut Site, ctx: PageContext) -> (r: Result<String, RenderError>)
        ensures
            *final(site) == *old(site),
            rendered(r) == list_json(old(site).store@, old(site).config.oshi@),
    {
        match entries(site, true) {
            Ok(Some(list)) => {
                let mut out = String::from_str("{\"channels\": [");
                out.append(join_text(&list, ",").as_str());
                out.append("]}");
                Ok(out)
            },
            Ok(None) => Ok(String::from_str("{\"channels\": []}")),
            Err(e) => Err(e),
        }
    }
}

} // verus!
