# survival_cubed

The rules of Survival Cubed, a multiplayer 2D block game, as a library verified
with Verus: every function in `src/` carries a `requires`/`ensures` contract that
Verus proves, and the properties the game relies on across calls are stated as
public proof functions (named `law_…`) or as clauses of the functions they are
about.

## Layout

- `src/block.rs` — item ids, the block registry, and the tool, mining,
  durability, food and fuel rules.
- `src/inventory.rs` — the slot inventory: adding, removing, moving and taking
  items, with its item-conservation and stack-bound laws.
- `src/recipe.rs` — crafting, cooking and smelting recipes.
- `src/protocol.rs` — block text limits and the protocol constants.
- `src/entity.rs` — entity kinds, their health and owners.
- `src/net.rs` — version header, message framing, certificate fingerprints and
  their text form, and the `known_hosts` and saved-logins stores with the text
  they are saved as (which reads back as the same store).
- `src/save.rs` — the bytes of `world.dat` and chunk files, chunk file names,
  and the world picker's name order.
- `src/auth.rs` — Argon2id password records.
- `src/client.rs` — the menus' and chat's decisions: world names, display
  names, item queries, chat icons and chat pieces, seeds, recipe labels.
- `src/discovery.rs`, `src/random.rs`, `src/text.rs`, `src/world.rs` — LAN
  service labels, randomness, character utilities, dimensions.
- `app/` — the command-line program around the library: files, the day/night
  curve and other floating-point rules, and the `serde` forms of saved data.
- `tests/` — tests run against the compiled library.

Calls into `sha2`, `argon2` and `getrandom` go through small trusted wrappers
whose contracts say what those crates guarantee; everything around them is
verified.
