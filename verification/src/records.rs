//! What an inventory says of each thing that Docker lists.

use crate::inventory::{
    assemble_inventory, container_item, container_names, containers_in, has_gone, image_item,
    inventory_of, network_item, networks_in, opt_epoch, real_tags, state_snapshot, unslashed,
    used_images, used_networks, used_volumes, volume_item, ContainerRecord, ContainerRecordView,
    ContainerStateSnapshot, ImageRecord, ImageRecordView, InspectRecord, InventoryError,
    NetworkRecord, NetworkRecordView, SnapshotView, VolumeRecord, VolumeRecordView,
};
use crate::order::{lemma_ranked_holds, lemma_ranked_keeps, ranked};
use crate::resource::{InventoryItem, ItemView, ResourceKind, ResourceStateView};
use crate::text::{opt_view, views};
use crate::text_map::{has_key, value_of, TextMap};
use crate::unique::{lemma_ordered_once, ordered_once};
use vstd::prelude::*;

verus! {

/// Whether a name is what another one says behind its leading slashes.
pub open spec fn is_bare(name: Seq<char>, given: Seq<char>) -> bool {
    &&& name.len() <= given.len()
    &&& name == given.skip(given.len() - name.len())
    &&& forall|i: int| 0 <= i < given.len() - name.len() ==> #[trigger] given[i] == '/'
    &&& name.len() > 0 ==> name[0] != '/'
}

/// Whether a size is the one that Docker reports; it reports a negative one, or
/// none, where it knows none.
pub open spec fn is_size(size: Option<u64>, reported: Option<i64>) -> bool {
    match reported {
        Some(bytes) => if bytes < 0 {
            size is None
        } else {
            size is Some && size->0 == bytes
        },
        None => size is None,
    }
}

/// Whether a state is the one that a word of Docker names.
pub open spec fn is_state(state: ResourceStateView, word: Seq<char>) -> bool {
    &&& state is Running <==> word == "running"@ || word == "paused"@ || word == "restarting"@
    &&& state is Stopped <==> !(state is Running) && (word == "exited"@ || word == "dead"@)
    &&& !(state is Running) && !(state is Stopped) ==> state == ResourceStateView::Other(word)
}

/// Whether an item tells of a listed container: its id, labels, names, creation
/// and size as listed; its state and since when from the inspection, where there
/// was one, else the listed state with no moment.
pub open spec fn tells_of_container(
    item: ItemView,
    record: ContainerRecordView,
    snapshots: Seq<(Seq<char>, SnapshotView)>,
) -> bool {
    &&& item.kind == ResourceKind::Container
    &&& Some(item.id) == record.id
    &&& item.labels == record.labels
    &&& item.created_at == record.created
    &&& is_size(item.size, record.size_root_fs)
    &&& item.search_names.contains(item.id)
    &&& forall|n: int|
        0 <= n < record.names.len() ==> exists|s: int|
            0 <= s < item.search_names.len() && is_bare(
                #[trigger] item.search_names[s],
                #[trigger] record.names[n],
            )
    &&& forall|s: int|
        0 <= s < item.search_names.len() ==> #[trigger] item.search_names[s] == item.id
            || exists|n: int|
            0 <= n < record.names.len() && is_bare(item.search_names[s], #[trigger] record.names[n])
    &&& record.names.len() > 0 ==> exists|n: int|
        0 <= n < record.names.len() && is_bare(item.name, #[trigger] record.names[n])
    &&& match value_of(snapshots, item.id) {
        Some(known) => is_state(item.state, known.state) && item.state_since == known.since,
        None => {
            &&& record.state is Some ==> is_state(item.state, record.state->0)
            &&& record.state is None ==> is_state(item.state, "unknown"@)
            &&& item.state_since is None
        },
    }
    &&& !item.referenced && !item.dangling && !item.system
}

/// Whether an item tells of a listed image: its id, labels, tags, creation and
/// size as listed, dangling where it has no tag, and referenced where a listed
/// container is made from it.
pub open spec fn tells_of_image(
    item: ItemView,
    record: ImageRecordView,
    containers: Seq<ContainerRecordView>,
) -> bool {
    &&& item.kind == ResourceKind::Image
    &&& item.id == record.id
    &&& item.labels == record.labels
    &&& item.created_at == Some(record.created)
    &&& is_size(item.size, Some(record.size))
    &&& forall|name: Seq<char>| #[trigger]
        item.search_names.contains(name) <==> name == record.id || record.repo_tags.contains(name)
            && name != "<none>:<none>"@
    &&& item.dangling <==> forall|t: int|
        0 <= t < record.repo_tags.len() ==> #[trigger] record.repo_tags[t] == "<none>:<none>"@
    &&& !item.dangling ==> record.repo_tags.contains(item.name) && item.name != "<none>:<none>"@
    &&& item.referenced <==> exists|c: int|
        0 <= c < containers.len() && (#[trigger] containers[c]).image_id == Some(record.id)
    &&& item.state is Available && item.state_since is None && !item.system
}

/// Whether an item tells of a listed volume: its name, labels, creation and size
/// as listed, and referenced where a listed container mounts it.
pub open spec fn tells_of_volume(
    item: ItemView,
    record: VolumeRecordView,
    containers: Seq<ContainerRecordView>,
) -> bool {
    &&& item.kind == ResourceKind::Volume
    &&& item.id == record.name
    &&& item.name == record.name
    &&& item.search_names == seq![record.name]
    &&& item.labels == record.labels
    &&& item.created_at == match record.created_at {
        Some(text) => opt_epoch(Some(text)),
        None => None,
    }
    &&& is_size(item.size, record.size)
    &&& item.referenced <==> exists|c: int|
        0 <= c < containers.len() && (#[trigger] containers[c]).volumes.contains(record.name)
    &&& item.state is Available && item.state_since is None && !item.dangling && !item.system
}

/// Whether an item tells of a listed network: its id, labels, name and creation as
/// listed, a system one where Docker made it itself, and referenced where a
/// listed container is attached to it by name.
pub open spec fn tells_of_network(
    item: ItemView,
    record: NetworkRecordView,
    containers: Seq<ContainerRecordView>,
) -> bool {
    &&& item.kind == ResourceKind::Network
    &&& Some(item.id) == record.id
    &&& record.name is Some ==> item.name == record.name->0
    &&& item.labels == record.labels
    &&& item.created_at == match record.created {
        Some(text) => opt_epoch(Some(text)),
        None => None,
    }
    &&& forall|name: Seq<char>| #[trigger]
        item.search_names.contains(name) <==> name == item.id || name == item.name
    &&& item.system <==> item.name == "bridge"@ || item.name == "host"@ || item.name == "none"@
        || record.ingress == Some(true) || record.config_only == Some(true)
    &&& item.referenced <==> exists|c: int|
        0 <= c < containers.len() && (#[trigger] containers[c]).networks.contains(item.name)
    &&& item.state is Available && item.state_since is None && !item.dangling && item.size is None
}

proof fn lemma_bare(given: Seq<char>)
    ensures
        is_bare(unslashed(given), given),
    decreases given.len(),
{
    if given.len() > 0 && given[0] == '/' {
        let rest = given.drop_first();
        lemma_bare(rest);
        let name = unslashed(rest);
        assert(name =~= given.skip(given.len() - name.len()));
        assert forall|i: int| 0 <= i < given.len() - name.len() implies #[trigger] given[i]
            == '/' by {
            if i > 0 {
                assert(rest[i - 1] == given[i]);
            }
        }
    } else {
        assert(given =~= given.skip(0));
    }
}

proof fn lemma_container_item(
    record: ContainerRecordView,
    snapshots: Seq<(Seq<char>, SnapshotView)>,
)
    requires
        record.id is Some,
    ensures
        tells_of_container(container_item(record, snapshots), record, snapshots),
{
    let item = container_item(record, snapshots);
    let bare = record.names.map_values(|name: Seq<char>| unslashed(name));
    let names = container_names(record.names);
    lemma_ordered_once::<String>(bare);
    assert(item.search_names[names.len() as int] == item.id);
    assert forall|n: int| 0 <= n < record.names.len() implies exists|s: int|
        0 <= s < item.search_names.len() && is_bare(
            #[trigger] item.search_names[s],
            #[trigger] record.names[n],
        ) by {
        lemma_bare(record.names[n]);
        assert(bare.contains(bare[n]));
        assert(names.contains(bare[n]));
        let s = choose|s: int| 0 <= s < names.len() && names[s] == bare[n];
        assert(item.search_names[s] == bare[n]);
    }
    assert forall|s: int| 0 <= s < item.search_names.len() implies #[trigger] item.search_names[s]
        == item.id || exists|n: int|
        0 <= n < record.names.len() && is_bare(item.search_names[s], #[trigger] record.names[n]) by {
        if s < names.len() {
            assert(names.contains(names[s]));
            assert(bare.contains(names[s]));
            let n = choose|n: int| 0 <= n < bare.len() && bare[n] == names[s];
            lemma_bare(record.names[n]);
            assert(item.search_names[s] == bare[n]);
        }
    }
    if record.names.len() > 0 {
        assert(bare.contains(bare[0]));
        assert(names.contains(bare[0]));
        assert(names.contains(names[0]));
        assert(bare.contains(names[0]));
        let n = choose|n: int| 0 <= n < bare.len() && bare[n] == names[0];
        lemma_bare(record.names[n]);
        assert(is_bare(item.name, record.names[n]));
    }
    reveal_strlit("running");
    reveal_strlit("paused");
    reveal_strlit("restarting");
    reveal_strlit("exited");
    reveal_strlit("dead");
}

proof fn lemma_real_tags(tags: Seq<Seq<char>>, name: Seq<char>)
    ensures
        real_tags(tags).contains(name) <==> tags.contains(name) && name != "<none>:<none>"@,
    decreases tags.len(),
{
    if tags.len() > 0 {
        let rest = tags.drop_last();
        let before = real_tags(rest);
        let last = tags.last();
        lemma_real_tags(rest, name);
        if tags.contains(name) {
            let i = choose|i: int| 0 <= i < tags.len() && tags[i] == name;
            if i < rest.len() {
                assert(rest[i] == name);
            }
        }
        if rest.contains(name) {
            let i = choose|i: int| 0 <= i < rest.len() && rest[i] == name;
            assert(tags[i] == name);
        }
        if last != "<none>:<none>"@ {
            assert(before.push(last)[before.len() as int] == last);
            if before.contains(name) {
                let i = choose|i: int| 0 <= i < before.len() && before[i] == name;
                assert(before.push(last)[i] == name);
            }
            if before.push(last).contains(name) {
                let i = choose|i: int|
                    0 <= i < before.push(last).len() && before.push(last)[i] == name;
                if i < before.len() {
                    assert(before[i] == name);
                } else {
                    assert(tags[tags.len() - 1] == name);
                }
            }
        }
    }
}

proof fn lemma_used_images(records: Seq<ContainerRecordView>, id: Seq<char>)
    ensures
        used_images(records).contains(id) <==> exists|c: int|
            0 <= c < records.len() && (#[trigger] records[c]).image_id == Some(id),
    decreases records.len(),
{
    if records.len() > 0 {
        let rest = records.drop_last();
        let before = used_images(rest);
        let end = records.len() - 1;
        lemma_used_images(rest, id);
        if exists|c: int| 0 <= c < records.len() && (#[trigger] records[c]).image_id == Some(id) {
            let c = choose|c: int|
                0 <= c < records.len() && (#[trigger] records[c]).image_id == Some(id);
            if c < end {
                assert(rest[c].image_id == Some(id));
            }
        }
        if exists|c: int| 0 <= c < rest.len() && (#[trigger] rest[c]).image_id == Some(id) {
            let c = choose|c: int| 0 <= c < rest.len() && (#[trigger] rest[c]).image_id == Some(id);
            assert(records[c].image_id == Some(id));
        }
        if let Some(last) = records[end].image_id {
            assert(before.push(last)[before.len() as int] == last);
            if before.contains(id) {
                let i = choose|i: int| 0 <= i < before.len() && before[i] == id;
                assert(before.push(last)[i] == id);
            }
            if before.push(last).contains(id) {
                let i = choose|i: int| 0 <= i < before.push(last).len() && before.push(last)[i] == id;
                if i < before.len() {
                    assert(before[i] == id);
                } else {
                    assert(records[end].image_id == Some(id));
                }
            }
        }
    }
}

proof fn lemma_joined_contains(left: Seq<Seq<char>>, right: Seq<Seq<char>>, name: Seq<char>)
    ensures
        (left + right).contains(name) <==> left.contains(name) || right.contains(name),
{
    if left.contains(name) {
        let i = choose|i: int| 0 <= i < left.len() && left[i] == name;
        assert((left + right)[i] == name);
    }
    if right.contains(name) {
        let i = choose|i: int| 0 <= i < right.len() && right[i] == name;
        assert((left + right)[left.len() + i] == name);
    }
    if (left + right).contains(name) {
        let i = choose|i: int| 0 <= i < (left + right).len() && (left + right)[i] == name;
        if i < left.len() {
            assert(left[i] == name);
        } else {
            assert(right[i - left.len()] == name);
        }
    }
}

proof fn lemma_used_volumes(records: Seq<ContainerRecordView>, name: Seq<char>)
    ensures
        used_volumes(records).contains(name) <==> exists|c: int|
            0 <= c < records.len() && (#[trigger] records[c]).volumes.contains(name),
    decreases records.len(),
{
    if records.len() > 0 {
        let rest = records.drop_last();
        let end = records.len() - 1;
        lemma_used_volumes(rest, name);
        lemma_joined_contains(used_volumes(rest), records[end].volumes, name);
        if exists|c: int| 0 <= c < records.len() && (#[trigger] records[c]).volumes.contains(name) {
            let c = choose|c: int|
                0 <= c < records.len() && (#[trigger] records[c]).volumes.contains(name);
            if c < end {
                assert(rest[c].volumes.contains(name));
            }
        }
        if exists|c: int| 0 <= c < rest.len() && (#[trigger] rest[c]).volumes.contains(name) {
            let c = choose|c: int|
                0 <= c < rest.len() && (#[trigger] rest[c]).volumes.contains(name);
            assert(records[c].volumes.contains(name));
        }
    }
}

proof fn lemma_used_networks(records: Seq<ContainerRecordView>, name: Seq<char>)
    ensures
        used_networks(records).contains(name) <==> exists|c: int|
            0 <= c < records.len() && (#[trigger] records[c]).networks.contains(name),
    decreases records.len(),
{
    if records.len() > 0 {
        let rest = records.drop_last();
        let end = records.len() - 1;
        lemma_used_networks(rest, name);
        lemma_joined_contains(used_networks(rest), records[end].networks, name);
        if exists|c: int| 0 <= c < records.len() && (#[trigger] records[c]).networks.contains(name) {
            let c = choose|c: int|
                0 <= c < records.len() && (#[trigger] records[c]).networks.contains(name);
            if c < end {
                assert(rest[c].networks.contains(name));
            }
        }
        if exists|c: int| 0 <= c < rest.len() && (#[trigger] rest[c]).networks.contains(name) {
            let c = choose|c: int|
                0 <= c < rest.len() && (#[trigger] rest[c]).networks.contains(name);
            assert(records[c].networks.contains(name));
        }
    }
}

proof fn lemma_image_item(record: ImageRecordView, containers: Seq<ContainerRecordView>)
    ensures
        tells_of_image(image_item(record, used_images(containers)), record, containers),
{
    let item = image_item(record, used_images(containers));
    let named = real_tags(record.repo_tags);
    let tags = ordered_once::<String>(named);
    lemma_ordered_once::<String>(named);
    lemma_used_images(containers, record.id);
    assert forall|name: Seq<char>| #[trigger]
        item.search_names.contains(name) <==> name == record.id || record.repo_tags.contains(name)
            && name != "<none>:<none>"@ by {
        lemma_real_tags(record.repo_tags, name);
        assert(named.contains(name) == tags.contains(name));
        assert(item.search_names == tags.push(record.id));
        assert(item.search_names[tags.len() as int] == record.id);
        if tags.contains(name) {
            let i = choose|i: int| 0 <= i < tags.len() && tags[i] == name;
            assert(item.search_names[i] == name);
        }
        if item.search_names.contains(name) {
            let i = choose|i: int|
                0 <= i < item.search_names.len() && item.search_names[i] == name;
            if i < tags.len() {
                assert(tags[i] == name);
            }
        }
    }
    if tags.len() > 0 {
        assert(tags.contains(tags[0]));
        assert(named.contains(tags[0]));
        lemma_real_tags(record.repo_tags, tags[0]);
        let t = choose|t: int| 0 <= t < record.repo_tags.len() && record.repo_tags[t] == tags[0];
        assert(record.repo_tags[t] != "<none>:<none>"@);
    } else {
        assert forall|t: int| 0 <= t < record.repo_tags.len() implies #[trigger] record.repo_tags[t]
            == "<none>:<none>"@ by {
            lemma_real_tags(record.repo_tags, record.repo_tags[t]);
            assert(record.repo_tags.contains(record.repo_tags[t]));
            if named.contains(record.repo_tags[t]) {
                assert(tags.contains(record.repo_tags[t]));
            }
        }
    }
}

proof fn lemma_network_item(record: NetworkRecordView, containers: Seq<ContainerRecordView>)
    requires
        record.id is Some,
    ensures
        tells_of_network(network_item(record, used_networks(containers)), record, containers),
{
    let item = network_item(record, used_networks(containers));
    let both = seq![item.name, item.id];
    lemma_ordered_once::<String>(both);
    lemma_used_networks(containers, item.name);
    assert(both[0] == item.name && both[1] == item.id);
    assert(both.contains(item.name) && both.contains(item.id));
}

spec fn comes_from(
    item: ItemView,
    records: Seq<ContainerRecordView>,
    snapshots: Seq<(Seq<char>, SnapshotView)>,
    state_required: bool,
) -> bool {
    exists|c: int|
        0 <= c < records.len() && (#[trigger] records[c]).id is Some && !has_gone(
            records[c],
            snapshots,
            state_required,
        ) && item == container_item(records[c], snapshots)
}

proof fn lemma_containers_in(
    records: Seq<ContainerRecordView>,
    snapshots: Seq<(Seq<char>, SnapshotView)>,
    state_required: bool,
)
    requires
        containers_in(records, snapshots, state_required) is Some,
    ensures
        forall|c: int|
            0 <= c < records.len() ==> (#[trigger] records[c]).id is Some && (has_gone(
                records[c],
                snapshots,
                state_required,
            ) || containers_in(records, snapshots, state_required)->0.contains(
                container_item(records[c], snapshots),
            )),
        forall|i: int|
            0 <= i < containers_in(records, snapshots, state_required)->0.len() ==> comes_from(
                #[trigger] containers_in(records, snapshots, state_required)->0[i],
                records,
                snapshots,
                state_required,
            ),
    decreases records.len(),
{
    if records.len() > 0 {
        let rest = records.drop_last();
        let end = records.len() - 1;
        let before = containers_in(rest, snapshots, state_required)->0;
        let all = containers_in(records, snapshots, state_required)->0;
        lemma_containers_in(rest, snapshots, state_required);
        assert forall|c: int| 0 <= c < records.len() implies (#[trigger] records[c]).id is Some && (
        has_gone(records[c], snapshots, state_required) || all.contains(
            container_item(records[c], snapshots),
        )) by {
            if c < end {
                assert(rest[c] == records[c]);
                if before.contains(container_item(rest[c], snapshots)) {
                    let i = choose|i: int|
                        0 <= i < before.len() && before[i] == container_item(rest[c], snapshots);
                    assert(all[i] == before[i]);
                }
            } else if !has_gone(records[c], snapshots, state_required) {
                assert(all[before.len() as int] == container_item(records[c], snapshots));
            }
        }
        assert forall|i: int| 0 <= i < all.len() implies comes_from(
            #[trigger] all[i],
            records,
            snapshots,
            state_required,
        ) by {
            if i < before.len() {
                assert(before[i] == all[i]);
                assert(comes_from(before[i], rest, snapshots, state_required));
                let c = choose|c: int|
                    0 <= c < rest.len() && (#[trigger] rest[c]).id is Some && !has_gone(
                        rest[c],
                        snapshots,
                        state_required,
                    ) && before[i] == container_item(rest[c], snapshots);
                assert(records[c] == rest[c]);
            } else {
                assert(records[end].id is Some);
            }
        }
    }
}

proof fn lemma_networks_in(records: Seq<NetworkRecordView>, referenced: Seq<Seq<char>>)
    requires
        networks_in(records, referenced) is Some,
    ensures
        networks_in(records, referenced)->0.len() == records.len(),
        forall|c: int|
            0 <= c < records.len() ==> (#[trigger] records[c]).id is Some && networks_in(
                records,
                referenced,
            )->0[c] == network_item(records[c], referenced),
    decreases records.len(),
{
    if records.len() > 0 {
        let rest = records.drop_last();
        lemma_networks_in(rest, referenced);
        assert forall|c: int| 0 <= c < records.len() implies (#[trigger] records[c]).id is Some
            && networks_in(records, referenced)->0[c] == network_item(records[c], referenced) by {
            if c < rest.len() {
                assert(rest[c] == records[c]);
            }
        }
    }
}

/// Whether a listed container is still there as far as its state had to be read:
/// inspecting it gave something.
pub open spec fn is_still_there(
    record: ContainerRecordView,
    snapshots: Seq<(Seq<char>, SnapshotView)>,
    state_required: bool,
) -> bool {
    record.id is Some && (!state_required || has_key(snapshots, record.id->0))
}

/// Whether some item tells of a listed container.
pub open spec fn has_container(
    items: Seq<ItemView>,
    record: ContainerRecordView,
    snapshots: Seq<(Seq<char>, SnapshotView)>,
) -> bool {
    exists|i: int|
        0 <= i < items.len() && tells_of_container(#[trigger] items[i], record, snapshots)
}

/// Whether some item tells of a listed image.
pub open spec fn has_image(
    items: Seq<ItemView>,
    record: ImageRecordView,
    containers: Seq<ContainerRecordView>,
) -> bool {
    exists|i: int|
        0 <= i < items.len() && tells_of_image(#[trigger] items[i], record, containers)
}

/// Whether some item tells of a listed volume.
pub open spec fn has_volume(
    items: Seq<ItemView>,
    record: VolumeRecordView,
    containers: Seq<ContainerRecordView>,
) -> bool {
    exists|i: int|
        0 <= i < items.len() && tells_of_volume(#[trigger] items[i], record, containers)
}

/// Whether some item tells of a listed network.
pub open spec fn has_network(
    items: Seq<ItemView>,
    record: NetworkRecordView,
    containers: Seq<ContainerRecordView>,
) -> bool {
    exists|i: int|
        0 <= i < items.len() && tells_of_network(#[trigger] items[i], record, containers)
}

/// Every container, image, volume and network that Docker lists has an item in
/// the inventory which tells of it, but for a container that has gone before its
/// state could be read.
pub proof fn whatever_is_listed_is_in_the_inventory(
    containers: Seq<ContainerRecordView>,
    images: Seq<ImageRecordView>,
    volumes: Seq<VolumeRecordView>,
    networks: Seq<NetworkRecordView>,
    snapshots: Seq<(Seq<char>, SnapshotView)>,
    state_required: bool,
)
    requires
        inventory_of(containers, images, volumes, networks, snapshots, state_required) is Some,
    ensures
        ({
            let items = inventory_of(
                containers,
                images,
                volumes,
                networks,
                snapshots,
                state_required,
            )->0;
            &&& forall|c: int|
                0 <= c < containers.len() && is_still_there(
                    #[trigger] containers[c],
                    snapshots,
                    state_required,
                ) ==> has_container(items, containers[c], snapshots)
            &&& forall|c: int|
                0 <= c < images.len() ==> has_image(items, #[trigger] images[c], containers)
            &&& forall|c: int|
                0 <= c < volumes.len() ==> has_volume(items, #[trigger] volumes[c], containers)
            &&& forall|c: int|
                0 <= c < networks.len() ==> has_network(items, #[trigger] networks[c], containers)
        }),
{
    let image_refs = used_images(containers);
    let volume_refs = used_volumes(containers);
    let network_refs = used_networks(containers);
    let found = containers_in(containers, snapshots, state_required)->0;
    let attached = networks_in(networks, network_refs)->0;
    let pictured = images.map_values(|record: ImageRecordView| image_item(record, image_refs));
    let stored = volumes.map_values(|record: VolumeRecordView| volume_item(record, volume_refs));
    let all = found + pictured + stored + attached;
    let items = ranked::<InventoryItem>(all);
    lemma_containers_in(containers, snapshots, state_required);
    lemma_networks_in(networks, network_refs);
    assert forall|c: int|
        0 <= c < containers.len() && is_still_there(
            #[trigger] containers[c],
            snapshots,
            state_required,
        ) implies has_container(items, containers[c], snapshots) by {
        lemma_container_item(containers[c], snapshots);
        let k = choose|k: int|
            0 <= k < found.len() && found[k] == container_item(containers[c], snapshots);
        assert(all[k] == found[k]);
        lemma_ranked_keeps::<InventoryItem>(all, k);
        let i = choose|i: int| 0 <= i < items.len() && items[i] == all[k];
        assert(tells_of_container(items[i], containers[c], snapshots));
    }
    assert forall|c: int| 0 <= c < images.len() implies has_image(
        items,
        #[trigger] images[c],
        containers,
    ) by {
        lemma_image_item(images[c], containers);
        let k = found.len() + c;
        assert(all[k] == pictured[c]);
        lemma_ranked_keeps::<InventoryItem>(all, k);
        let i = choose|i: int| 0 <= i < items.len() && items[i] == all[k];
        assert(tells_of_image(items[i], images[c], containers));
    }
    assert forall|c: int| 0 <= c < volumes.len() implies has_volume(
        items,
        #[trigger] volumes[c],
        containers,
    ) by {
        lemma_used_volumes(containers, volumes[c].name);
        let k = found.len() + pictured.len() + c;
        assert(all[k] == stored[c]);
        lemma_ranked_keeps::<InventoryItem>(all, k);
        let i = choose|i: int| 0 <= i < items.len() && items[i] == all[k];
        assert(tells_of_volume(items[i], volumes[c], containers));
    }
    assert forall|c: int| 0 <= c < networks.len() implies has_network(
        items,
        #[trigger] networks[c],
        containers,
    ) by {
        lemma_network_item(networks[c], containers);
        let k = found.len() + pictured.len() + stored.len() + c;
        assert(all[k] == attached[c]);
        lemma_ranked_keeps::<InventoryItem>(all, k);
        let i = choose|i: int| 0 <= i < items.len() && items[i] == all[k];
        assert(tells_of_network(items[i], networks[c], containers));
    }
}

/// Every item of the inventory tells of something that Docker lists and that has
/// not gone.
pub proof fn the_inventory_holds_nothing_else(
    containers: Seq<ContainerRecordView>,
    images: Seq<ImageRecordView>,
    volumes: Seq<VolumeRecordView>,
    networks: Seq<NetworkRecordView>,
    snapshots: Seq<(Seq<char>, SnapshotView)>,
    state_required: bool,
    index: int,
)
    requires
        inventory_of(containers, images, volumes, networks, snapshots, state_required) is Some,
        0 <= index < inventory_of(
            containers,
            images,
            volumes,
            networks,
            snapshots,
            state_required,
        )->0.len(),
    ensures
        ({
            let item = inventory_of(
                containers,
                images,
                volumes,
                networks,
                snapshots,
                state_required,
            )->0[index];
            ||| exists|c: int|
                0 <= c < containers.len() && is_still_there(
                    #[trigger] containers[c],
                    snapshots,
                    state_required,
                ) && tells_of_container(item, containers[c], snapshots)
            ||| exists|c: int|
                0 <= c < images.len() && tells_of_image(item, #[trigger] images[c], containers)
            ||| exists|c: int|
                0 <= c < volumes.len() && tells_of_volume(item, #[trigger] volumes[c], containers)
            ||| exists|c: int|
                0 <= c < networks.len() && tells_of_network(
                    item,
                    #[trigger] networks[c],
                    containers,
                )
        }),
{
    let image_refs = used_images(containers);
    let volume_refs = used_volumes(containers);
    let network_refs = used_networks(containers);
    let found = containers_in(containers, snapshots, state_required)->0;
    let attached = networks_in(networks, network_refs)->0;
    let pictured = images.map_values(|record: ImageRecordView| image_item(record, image_refs));
    let stored = volumes.map_values(|record: VolumeRecordView| volume_item(record, volume_refs));
    let all = found + pictured + stored + attached;
    let items = ranked::<InventoryItem>(all);
    lemma_containers_in(containers, snapshots, state_required);
    lemma_networks_in(networks, network_refs);
    lemma_ranked_holds::<InventoryItem>(all, index);
    let k = choose|k: int| 0 <= k < all.len() && all[k] == items[index];
    if k < found.len() {
        assert(all[k] == found[k]);
        assert(comes_from(found[k], containers, snapshots, state_required));
        let c = choose|c: int|
            0 <= c < containers.len() && (#[trigger] containers[c]).id is Some && !has_gone(
                containers[c],
                snapshots,
                state_required,
            ) && found[k] == container_item(containers[c], snapshots);
        lemma_container_item(containers[c], snapshots);
        assert(is_still_there(containers[c], snapshots, state_required));
    } else if k < found.len() + pictured.len() {
        let c = k - found.len();
        assert(all[k] == pictured[c]);
        lemma_image_item(images[c], containers);
    } else if k < found.len() + pictured.len() + stored.len() {
        let c = k - found.len() - pictured.len();
        assert(all[k] == stored[c]);
        lemma_used_volumes(containers, volumes[c].name);
    } else {
        let c = k - found.len() - pictured.len() - stored.len();
        assert(all[k] == attached[c]);
        lemma_network_item(networks[c], containers);
    }
}

proof fn lemma_missing_container(
    records: Seq<ContainerRecordView>,
    snapshots: Seq<(Seq<char>, SnapshotView)>,
    state_required: bool,
)
    requires
        containers_in(records, snapshots, state_required) is None,
    ensures
        exists|c: int| 0 <= c < records.len() && (#[trigger] records[c]).id is None,
    decreases records.len(),
{
    let rest = records.drop_last();
    if containers_in(rest, snapshots, state_required) is None {
        lemma_missing_container(rest, snapshots, state_required);
        let c = choose|c: int| 0 <= c < rest.len() && (#[trigger] rest[c]).id is None;
        assert(records[c].id is None);
    } else {
        assert(records[records.len() - 1].id is None);
    }
}

proof fn lemma_missing_network(records: Seq<NetworkRecordView>, referenced: Seq<Seq<char>>)
    requires
        networks_in(records, referenced) is None,
    ensures
        exists|c: int| 0 <= c < records.len() && (#[trigger] records[c]).id is None,
    decreases records.len(),
{
    let rest = records.drop_last();
    if networks_in(rest, referenced) is None {
        lemma_missing_network(rest, referenced);
        let c = choose|c: int| 0 <= c < rest.len() && (#[trigger] rest[c]).id is None;
        assert(records[c].id is None);
    } else {
        assert(records[records.len() - 1].id is None);
    }
}

/// Assembling gives an inventory exactly when every listed container and network
/// has an id, and then the one that tells of what is listed.
pub proof fn assembling_needs_ids_alone(
    containers: Vec<ContainerRecord>,
    images: Vec<ImageRecord>,
    volumes: Vec<VolumeRecord>,
    networks: Vec<NetworkRecord>,
    snapshots: TextMap<ContainerStateSnapshot>,
    state_required: bool,
    outcome: Result<Vec<InventoryItem>, InventoryError>,
)
    requires
        call_ensures(
            assemble_inventory,
            (&containers, &images, &volumes, &networks, &snapshots, state_required),
            outcome,
        ),
    ensures
        outcome is Ok <==> {
            &&& forall|c: int|
                0 <= c < containers@.len() ==> (#[trigger] views(containers@)[c]).id is Some
            &&& forall|c: int|
                0 <= c < networks@.len() ==> (#[trigger] views(networks@)[c]).id is Some
        },
        outcome is Ok ==> Some(views(outcome->Ok_0@)) == inventory_of(
            views(containers@),
            views(images@),
            views(volumes@),
            views(networks@),
            snapshots@,
            state_required,
        ),
{
    let listed = views(containers@);
    let linked = views(networks@);
    let referenced = used_networks(listed);
    assert(listed.len() == containers@.len());
    assert(linked.len() == networks@.len());
    if containers_in(listed, snapshots@, state_required) is Some {
        lemma_containers_in(listed, snapshots@, state_required);
    } else {
        lemma_missing_container(listed, snapshots@, state_required);
    }
    if networks_in(linked, referenced) is Some {
        lemma_networks_in(linked, referenced);
    } else {
        lemma_missing_network(linked, referenced);
    }
}

/// An inspection of a running container counts from its start, one of a stopped
/// container from its end, and no other from any moment.
pub proof fn a_state_counts_from_its_own_moment(
    response: InspectRecord,
    snapshot: ContainerStateSnapshot,
)
    requires
        call_ensures(state_snapshot, (&response,), snapshot),
    ensures
        opt_view(response.status) matches Some(word) ==> snapshot.state@ == word && ({
            let running = word == "running"@ || word == "paused"@ || word == "restarting"@;
            let ended = word == "exited"@ || word == "dead"@;
            &&& running ==> snapshot.since == opt_epoch(opt_view(response.started_at))
            &&& ended && !running ==> snapshot.since == opt_epoch(opt_view(response.finished_at))
            &&& !running && !ended ==> snapshot.since is None
        }),
        response.status is None ==> snapshot.since is None && snapshot.state@ == "unknown"@,
{
    reveal_strlit("unknown");
    reveal_strlit("running");
    reveal_strlit("paused");
    reveal_strlit("restarting");
    reveal_strlit("exited");
    reveal_strlit("dead");
    assert("unknown"@[0] == 'u' && "running"@[0] == 'r' && "restarting"@[0] == 'r');
    assert("paused"@[0] == 'p' && "exited"@[0] == 'e' && "dead"@[0] == 'd');
}

} // verus!
