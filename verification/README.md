# classicube-pet-plugin

A ClassiCube client plugin that gives the player a pet: it follows the
player (walking an A* path over the world's blocks, or teleporting), can copy
any entity's model and skin, and tells other players running the plugin about
itself over plugin messages.

- `src/` is the verified library (Verus): the custom-model packet capture and
  the pet's slot bookkeeping, path finding on a block grid, skin URLs and
  pixel conversion, the chat command's arguments, relay-message decisions, and
  the plugin lifecycle. Each public function states its behaviour in its
  contract; the `law_*` proof functions state properties across calls.
- `tests/` runs the library on concrete inputs.
- `app/` is the plugin around it: the C entry points, ClassiCube FFI, packet
  hooks, downloads, PNG decoding, borsh messages and the floating-point
  per-frame walking.
